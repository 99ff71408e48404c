use vstd::prelude::*;
use std::collections::HashMap;
use crate::catalog::{BlockType, FLOW_SLOT, LEFT_SLOT, RIGHT_SLOT};
use crate::text::{chars_of, fill_from, fill_exec, placeholder, placeholder_chars, string_of, views};

verus! {

broadcast use vstd::std_specs::hash::group_hash_axioms;

/// What fills one hole of a block: another block nested as an argument, or
/// literal text.
#[derive(Debug, Clone, PartialEq)]
pub enum BlockDataType {
    Hole(u64),
    Value(String),
}

/// One filled hole: its position in the owner and what fills it, with the
/// block type of a nested argument.
#[derive(Debug, Clone, PartialEq)]
pub struct BlockData {
    pub block_type: BlockType,
    pub data_type: BlockDataType,
    pub position: usize,
}

/// The hole contents of every block, each list ordered by position.
#[derive(Debug)]
pub struct BlockDataMap {
    pub map: HashMap<u64, Vec<BlockData>>,
}

/// The structural children of one block: left branch, right branch, flow.
pub type Connections = [Option<(u64, BlockType)>; 3];

/// The structure of a program: the registered blocks, in the order they
/// were registered, and the structural children of each block.
#[derive(Debug)]
pub struct Ast {
    pub map: HashMap<u64, Connections>,
    pub blocks: Vec<(u64, BlockType)>,
}

/// A problem met while generating; generation goes on past each of them.
#[derive(Debug, Clone, Copy, PartialEq, Eq)]
pub enum Diagnostic {
    /// The block has no hole entry: its template is used without hole values.
    MissingHoles(u64),
    /// A hole or a structural slot names a block that is not registered.
    DanglingReference(u64),
    /// The block is reached again while it is being expanded.
    Cycle(u64),
    /// The template of the block has no placeholder for this index.
    UnusedValue(u64, usize),
}

/// The source text generated from a program, with what went wrong.
#[derive(Debug)]
pub struct GeneratedCode {
    pub code: String,
    pub diagnostics: Vec<Diagnostic>,
}

/// Why no code was generated.
#[derive(Debug, Clone, Copy, PartialEq, Eq)]
pub enum GenerateError {
    /// No registered block is a start block.
    MissingStart,
}

/// The hole entries of block `e`, empty where it has none.
pub open spec fn entries_of(d: Map<u64, Vec<BlockData>>, e: u64) -> Seq<BlockData> {
    if d.contains_key(e) {
        d[e]@
    } else {
        Seq::empty()
    }
}

/// The structural child of `e` in `slot`.
pub open spec fn child_of(m: Map<u64, Connections>, e: u64, slot: int) -> Option<(u64, BlockType)> {
    if m.contains_key(e) {
        m[e]@[slot]
    } else {
        None
    }
}

/// The placeholder indices of `n` hole values: 1 to n.
pub open spec fn hole_keys(n: nat) -> Seq<usize> {
    Seq::new(n, |k: int| (k + 1) as usize)
}

/// The placeholders for a list of indices.
pub open spec fn placeholders(keys: Seq<usize>) -> Seq<Seq<char>> {
    keys.map_values(|k: usize| placeholder(k as nat))
}

/// The index and text that a present branch fills, where its index fits in
/// a `usize`: branch `b` (0 left, 1 right) of a block with `h` holes takes
/// placeholder `h + b + 1`.
pub open spec fn branch_sub(h: nat, b: nat, text: Option<Seq<char>>) -> (Seq<usize>, Seq<Seq<char>>) {
    match text {
        Some(t) => if h + b + 1 <= usize::MAX {
            (seq![(h + b + 1) as usize], seq![t])
        } else {
            (Seq::empty(), Seq::empty())
        },
        None => (Seq::empty(), Seq::empty()),
    }
}

/// A diagnostic for each index, from `j` on, whose placeholder was not found.
pub open spec fn unused_diags(e: u64, keys: Seq<usize>, used: Seq<bool>, j: int) -> Seq<Diagnostic>
    decreases keys.len() - j,
{
    if j < 0 || j >= keys.len() {
        Seq::empty()
    } else if !used[j] {
        seq![Diagnostic::UnusedValue(e, keys[j])] + unused_diags(e, keys, used, j + 1)
    } else {
        unused_diags(e, keys, used, j + 1)
    }
}

/// A template filled with values for the given indices, and the diagnostics
/// for indices it has no placeholder for.
pub open spec fn fill_template(e: u64, t: Seq<char>, keys: Seq<usize>, vals: Seq<Seq<char>>) -> (Seq<char>, Seq<Diagnostic>) {
    let r = fill_from(t, placeholders(keys), vals, Seq::new(keys.len(), |j: int| false), 0);
    (r.0, unused_diags(e, keys, r.1, 0))
}

/// The diagnostic for a block without a hole entry.
pub open spec fn missing_diag(d: Map<u64, Vec<BlockData>>, e: u64) -> Seq<Diagnostic> {
    if d.contains_key(e) {
        Seq::empty()
    } else {
        seq![Diagnostic::MissingHoles(e)]
    }
}

/// The texts of hole entries `j..`, with their diagnostics in order.
pub open spec fn hole_texts(
    m: Map<u64, Connections>,
    d: Map<u64, Vec<BlockData>>,
    entries: Seq<BlockData>,
    j: int,
    path: Seq<u64>,
    fuel: nat,
) -> (Seq<Seq<char>>, Seq<Diagnostic>)
    decreases fuel, 1int, entries.len() - j,
{
    if j < 0 || j >= entries.len() {
        (Seq::empty(), Seq::empty())
    } else {
        let first = match entries[j].data_type {
            BlockDataType::Value(s) => (s@, Seq::empty()),
            BlockDataType::Hole(c) => arg_text(m, d, c, entries[j].block_type, path, fuel),
        };
        let rest = hole_texts(m, d, entries, j + 1, path, fuel);
        (seq![first.0] + rest.0, first.1 + rest.1)
    }
}

/// The text of a block nested in a hole: empty, with a diagnostic, where it
/// is not registered or already on the path being expanded.
pub open spec fn arg_text(
    m: Map<u64, Connections>,
    d: Map<u64, Vec<BlockData>>,
    c: u64,
    bt: BlockType,
    path: Seq<u64>,
    fuel: nat,
) -> (Seq<char>, Seq<Diagnostic>)
    decreases fuel, 0int, 0int,
{
    if !m.contains_key(c) {
        (Seq::empty(), seq![Diagnostic::DanglingReference(c)])
    } else if path.contains(c) || fuel == 0 {
        (Seq::empty(), seq![Diagnostic::Cycle(c)])
    } else {
        holes_text(m, d, c, bt, path.push(c), (fuel - 1) as nat)
    }
}

/// A block's template with its hole values substituted, in position order.
pub open spec fn holes_text(
    m: Map<u64, Connections>,
    d: Map<u64, Vec<BlockData>>,
    e: u64,
    bt: BlockType,
    path: Seq<u64>,
    fuel: nat,
) -> (Seq<char>, Seq<Diagnostic>)
    decreases fuel, 2int, 0int,
{
    let hv = hole_texts(m, d, entries_of(d, e), 0, path, fuel);
    let f = fill_template(e, bt.template_string@, hole_keys(hv.0.len()), hv.0);
    (f.0, missing_diag(d, e) + hv.1 + f.1)
}

/// The text of a structural child: empty, with a diagnostic, where it is not
/// registered or already on the path being expanded.
pub open spec fn child_text(
    m: Map<u64, Connections>,
    d: Map<u64, Vec<BlockData>>,
    c: u64,
    bt: BlockType,
    path: Seq<u64>,
    fuel: nat,
) -> (Seq<char>, Seq<Diagnostic>)
    decreases fuel, 0int, 0int,
{
    if !m.contains_key(c) {
        (Seq::empty(), seq![Diagnostic::DanglingReference(c)])
    } else if path.contains(c) || fuel == 0 {
        (Seq::empty(), seq![Diagnostic::Cycle(c)])
    } else {
        node_text(m, d, c, bt, path.push(c), (fuel - 1) as nat)
    }
}

/// The text of the child in a slot, where there is one.
pub open spec fn slot_text(
    m: Map<u64, Connections>,
    d: Map<u64, Vec<BlockData>>,
    e: u64,
    slot: int,
    path: Seq<u64>,
    fuel: nat,
) -> Option<(Seq<char>, Seq<Diagnostic>)>
    decreases fuel, 1int, 0int,
{
    match child_of(m, e, slot) {
        Some(c) => Some(child_text(m, d, c.0, c.1, path, fuel)),
        None => None,
    }
}

/// The text part of an optional expansion.
pub open spec fn text_part(x: Option<(Seq<char>, Seq<Diagnostic>)>) -> Option<Seq<char>> {
    match x {
        Some(p) => Some(p.0),
        None => None,
    }
}

/// The diagnostics of an optional expansion.
pub open spec fn diag_part(x: Option<(Seq<char>, Seq<Diagnostic>)>) -> Seq<Diagnostic> {
    match x {
        Some(p) => p.1,
        None => Seq::empty(),
    }
}

/// What a block's own template becomes: its holes and its left and right
/// branches substituted in one pass (holes take 1 to n, the branches the two
/// indices after the declared hole count).
pub open spec fn node_body(
    m: Map<u64, Connections>,
    d: Map<u64, Vec<BlockData>>,
    e: u64,
    bt: BlockType,
    path: Seq<u64>,
    fuel: nat,
) -> (Seq<char>, Seq<Diagnostic>)
    decreases fuel, 2int, 0int,
{
    let hv = hole_texts(m, d, entries_of(d, e), 0, path, fuel);
    let left = slot_text(m, d, e, LEFT_SLOT as int, path, fuel);
    let right = slot_text(m, d, e, RIGHT_SLOT as int, path, fuel);
    let l = branch_sub(bt.holes@.len(), 0, text_part(left));
    let r = branch_sub(bt.holes@.len(), 1, text_part(right));
    let f = fill_template(e, bt.template_string@, hole_keys(hv.0.len()) + l.0 + r.0, hv.0 + l.1 + r.1);
    (f.0, missing_diag(d, e) + hv.1 + diag_part(left) + diag_part(right) + f.1)
}

/// The full expansion of block `e`: its body, then a newline and the
/// expansion of its flow child, if it has one.
pub open spec fn node_text(
    m: Map<u64, Connections>,
    d: Map<u64, Vec<BlockData>>,
    e: u64,
    bt: BlockType,
    path: Seq<u64>,
    fuel: nat,
) -> (Seq<char>, Seq<Diagnostic>)
    decreases fuel, 3int, 0int,
{
    let body = node_body(m, d, e, bt, path, fuel);
    match slot_text(m, d, e, FLOW_SLOT as int, path, fuel) {
        Some(next) => (body.0 + seq!['\n'] + next.0, body.1 + next.1),
        None => body,
    }
}

/// The first registered block, from index `i` on, that is a start block.
pub open spec fn start_from(blocks: Seq<(u64, BlockType)>, i: int) -> Option<int>
    decreases blocks.len() - i,
{
    if i < 0 || i >= blocks.len() {
        None
    } else if blocks[i].1.is_start_spec() {
        Some(i)
    } else {
        start_from(blocks, i + 1)
    }
}

/// The expansion of the whole program, from its start block, where it has one.
pub open spec fn program_text(ast: &Ast, data: &BlockDataMap) -> Option<(Seq<char>, Seq<Diagnostic>)> {
    match start_from(ast.blocks@, 0) {
        Some(i) => {
            let s = ast.blocks@[i];
            Some(node_text(ast.map@, data.map@, s.0, s.1, seq![s.0], ast.map@.len()))
        },
        None => None,
    }
}

/// The index, from `i` on, of the registered block `e`.
pub open spec fn block_index(blocks: Seq<(u64, BlockType)>, e: u64, i: int) -> Option<int>
    decreases blocks.len() - i,
{
    if i < 0 || i >= blocks.len() {
        None
    } else if blocks[i].0 == e {
        Some(i)
    } else {
        block_index(blocks, e, i + 1)
    }
}

/// Slots with no children.
pub open spec fn no_children() -> Seq<Option<(u64, BlockType)>> {
    seq![None, None, None]
}

/// The slots of `e` before a change: its own, or empty ones.
pub open spec fn slots_or_empty(m: Map<u64, Connections>, e: u64) -> Seq<Option<(u64, BlockType)>> {
    if m.contains_key(e) {
        m[e]@
    } else {
        no_children()
    }
}

/// A request to register a block (no parent) or to make it the child of a
/// parent in the given slot.
#[derive(Debug)]
pub struct AddToAst {
    pub parent: Option<(u64, usize)>,
    pub child: (u64, BlockType),
}

/// A request to clear a parent's slot (with a parent) or to drop a block.
#[derive(Debug, Clone, Copy, PartialEq, Eq)]
pub struct RemoveFromAst {
    pub parent: Option<(u64, usize)>,
    pub child: u64,
}

impl Ast {
    /// Registered blocks appear once each and each has an entry of slots.
    pub open spec fn wf(&self) -> bool {
        &&& forall|i: int, j: int|
            0 <= i < self.blocks@.len() && 0 <= j < self.blocks@.len() && i != j
                ==> self.blocks@[i].0 != self.blocks@[j].0
        &&& forall|i: int| 0 <= i < self.blocks@.len() ==> self.map@.contains_key(#[trigger] self.blocks@[i].0)
    }
}

/// Positions strictly increase along a hole list.
pub open spec fn sorted_by_position(s: Seq<BlockData>) -> bool {
    forall|i: int, j: int| 0 <= i < j < s.len() ==> s[i].position < s[j].position
}

/// A hole list with `d` set at its position: placed in position order,
/// replacing an entry at the same position.
pub open spec fn with_hole(s: Seq<BlockData>, d: BlockData) -> Seq<BlockData>
    decreases s.len(),
{
    if s.len() == 0 {
        seq![d]
    } else if d.position < s[0].position {
        seq![d] + s
    } else if d.position == s[0].position {
        seq![d] + s.drop_first()
    } else {
        seq![s[0]] + with_hole(s.drop_first(), d)
    }
}

/// The index, from `i` on, of the entry at position `p`.
pub open spec fn hole_index(s: Seq<BlockData>, p: usize, i: int) -> Option<int>
    decreases s.len() - i,
{
    if i < 0 || i >= s.len() {
        None
    } else if s[i].position == p {
        Some(i)
    } else {
        hole_index(s, p, i + 1)
    }
}

/// A hole list without its entry at position `p`, if it has one.
pub open spec fn without_hole(s: Seq<BlockData>, p: usize) -> Seq<BlockData> {
    match hole_index(s, p, 0) {
        Some(i) => s.remove(i),
        None => s,
    }
}

impl BlockDataMap {
    /// Every hole list is in strictly increasing position order.
    pub open spec fn wf(&self) -> bool {
        forall|k: u64| #[trigger] self.map@.contains_key(k) ==> sorted_by_position(self.map@[k]@)
    }
}

/// The spec value of an optional expansion.
pub open spec fn expansion_view(x: Option<(Vec<char>, Vec<Diagnostic>)>) -> Option<(Seq<char>, Seq<Diagnostic>)> {
    match x {
        Some(p) => Some((p.0@, p.1@)),
        None => None,
    }
}

/// Whether `c` is on the path.
fn on_path(path: &Vec<u64>, c: u64) -> (r: bool)
    ensures
        r == path@.contains(c),
{
    let mut i: usize = 0;
    while i < path.len()
        invariant
            i <= path@.len(),
            forall|k: int| 0 <= k < i ==> path@[k] != c,
        decreases path.len() - i,
    {
        if path[i] == c {
            return true;
        }
        i = i + 1;
    }
    false
}

/// Diagnostics for the indices whose placeholders were not found.
fn push_unused(e: u64, keys: &Vec<usize>, used: &Vec<bool>, diags: &mut Vec<Diagnostic>)
    requires
        keys@.len() == used@.len(),
    ensures
        final(diags)@ == old(diags)@ + unused_diags(e, keys@, used@, 0),
{
    let ghost d0 = diags@;
    let mut j: usize = 0;
    while j < keys.len()
        invariant
            keys@.len() == used@.len(),
            j <= keys@.len(),
            diags@ + unused_diags(e, keys@, used@, j as int) == d0 + unused_diags(e, keys@, used@, 0),
        decreases keys.len() - j,
    {
        let ghost before = diags@;
        if !used[j] {
            diags.push(Diagnostic::UnusedValue(e, keys[j]));
            assert(diags@ + unused_diags(e, keys@, used@, j + 1) =~= before + unused_diags(e, keys@, used@, j as int));
        }
        j = j + 1;
    }
    assert(diags@ =~= d0 + unused_diags(e, keys@, used@, 0));
}

/// Fills a template with values for the given indices.
fn fill_template_exec(e: u64, t: &Vec<char>, keys: &Vec<usize>, vals: &Vec<Vec<char>>) -> (r: (Vec<char>, Vec<Diagnostic>))
    requires
        keys@.len() == vals@.len(),
    ensures
        r.0@ == fill_template(e, t@, keys@, views(vals@)).0,
        r.1@ == fill_template(e, t@, keys@, views(vals@)).1,
{
    let mut pats: Vec<Vec<char>> = Vec::new();
    let mut j: usize = 0;
    while j < keys.len()
        invariant
            j <= keys@.len(),
            pats@.len() == j,
            views(pats@) == placeholders(keys@).subrange(0, j as int),
        decreases keys.len() - j,
    {
        let ghost before = pats@;
        pats.push(placeholder_chars(keys[j]));
        j = j + 1;
        assert forall|m: int| 0 <= m < j implies #[trigger] views(pats@)[m] == placeholders(keys@)[m] by {
            if m < j - 1 {
                assert(pats@[m] == before[m]);
                assert(views(before)[m] == placeholders(keys@).subrange(0, j - 1)[m]);
            }
        }
        assert(views(pats@) =~= placeholders(keys@).subrange(0, j as int));
    }
    assert(views(pats@) =~= placeholders(keys@));
    let (out, used) = fill_exec(t, &pats, vals);
    assert(Seq::new(pats@.len(), |j: int| false) =~= Seq::new(keys@.len(), |j: int| false));
    let mut diags: Vec<Diagnostic> = Vec::new();
    push_unused(e, keys, &used, &mut diags);
    assert(diags@ =~= fill_template(e, t@, keys@, views(vals@)).1);
    (out, diags)
}

/// The placeholder indices 1 to n.
fn hole_keys_exec(n: usize) -> (r: Vec<usize>)
    ensures
        r@ == hole_keys(n as nat),
{
    let mut r: Vec<usize> = Vec::new();
    let mut k: usize = 0;
    while k < n
        invariant
            k <= n,
            r@ == hole_keys(k as nat),
        decreases n - k,
    {
        r.push(k + 1);
        k = k + 1;
        assert(r@ =~= hole_keys(k as nat));
    }
    r
}

/// Adds a present branch's index and text, where its index fits, and its
/// diagnostics.
fn add_branch(
    h: usize,
    b: usize,
    branch: Option<(Vec<char>, Vec<Diagnostic>)>,
    keys: &mut Vec<usize>,
    vals: &mut Vec<Vec<char>>,
    diags: &mut Vec<Diagnostic>,
)
    requires
        b < 2,
        old(keys)@.len() == old(vals)@.len(),
    ensures
        final(keys)@ == old(keys)@ + branch_sub(h as nat, b as nat, text_part(expansion_view(branch))).0,
        views(final(vals)@) == views(old(vals)@) + branch_sub(h as nat, b as nat, text_part(expansion_view(branch))).1,
        final(keys)@.len() == final(vals)@.len(),
        final(diags)@ == old(diags)@ + diag_part(expansion_view(branch)),
{
    let ghost v0 = views(vals@);
    match branch {
        Some((text, mut d)) => {
            if h < usize::MAX - b {
                keys.push(h + b + 1);
                vals.push(text);
            }
            diags.append(&mut d);
        },
        None => {},
    }
    assert(keys@ =~= old(keys)@ + branch_sub(h as nat, b as nat, text_part(expansion_view(branch))).0);
    assert(views(vals@) =~= v0 + branch_sub(h as nat, b as nat, text_part(expansion_view(branch))).1);
    assert(diags@ =~= old(diags)@ + diag_part(expansion_view(branch)));
}

impl BlockDataMap {
    /// A block's template with its hole values substituted in position order;
    /// nested argument blocks expand the same way.
    pub fn expand_holes(&self, ast: &Ast, block_entity: u64, block_type: &BlockType) -> (r: String)
        ensures
            r@ == holes_text(ast.map@, self.map@, block_entity, *block_type, seq![block_entity], ast.map@.len()).0,
    {
        let mut path: Vec<u64> = Vec::new();
        path.push(block_entity);
        assert(path@ =~= seq![block_entity]);
        let (out, _) = ast.holes_text_exec(self, block_entity, block_type, &mut path, ast.map.len());
        string_of(&out)
    }
}

impl Ast {
    fn arg_text_exec(&self, data: &BlockDataMap, c: u64, bt: &BlockType, path: &mut Vec<u64>, fuel: usize) -> (r: (Vec<char>, Vec<Diagnostic>))
        ensures
            r.0@ == arg_text(self.map@, data.map@, c, *bt, old(path)@, fuel as nat).0,
            r.1@ == arg_text(self.map@, data.map@, c, *bt, old(path)@, fuel as nat).1,
            final(path)@ == old(path)@,
        decreases fuel, 0int, 0int,
    {
        if !self.map.contains_key(&c) {
            let mut d: Vec<Diagnostic> = Vec::new();
            d.push(Diagnostic::DanglingReference(c));
            assert(d@ =~= seq![Diagnostic::DanglingReference(c)]);
            return (Vec::new(), d);
        }
        if fuel == 0 || on_path(path, c) {
            let mut d: Vec<Diagnostic> = Vec::new();
            d.push(Diagnostic::Cycle(c));
            assert(d@ =~= seq![Diagnostic::Cycle(c)]);
            return (Vec::new(), d);
        }
        path.push(c);
        let r = self.holes_text_exec(data, c, bt, path, fuel - 1);
        path.pop();
        r
    }

    fn hole_values(&self, data: &BlockDataMap, e: u64, path: &mut Vec<u64>, fuel: usize) -> (r: (Vec<Vec<char>>, Vec<Diagnostic>))
        ensures
            views(r.0@) == hole_texts(self.map@, data.map@, entries_of(data.map@, e), 0, old(path)@, fuel as nat).0,
            r.1@ == hole_texts(self.map@, data.map@, entries_of(data.map@, e), 0, old(path)@, fuel as nat).1,
            final(path)@ == old(path)@,
        decreases fuel, 1int, 0int,
    {
        let ghost path0 = path@;
        let ghost entries = entries_of(data.map@, e);
        let mut vals: Vec<Vec<char>> = Vec::new();
        let mut diags: Vec<Diagnostic> = Vec::new();
        match data.map.get(&e) {
            None => {
                assert(views(vals@) =~= Seq::<Seq<char>>::empty());
                (vals, diags)
            },
            Some(list) => {
                let mut j: usize = 0;
                while j < list.len()
                    invariant
                        list@ == entries,
                        path@ == path0,
                        j <= list@.len(),
                        views(vals@) + hole_texts(self.map@, data.map@, entries, j as int, path0, fuel as nat).0
                            == hole_texts(self.map@, data.map@, entries, 0, path0, fuel as nat).0,
                        diags@ + hole_texts(self.map@, data.map@, entries, j as int, path0, fuel as nat).1
                            == hole_texts(self.map@, data.map@, entries, 0, path0, fuel as nat).1,
                    decreases list.len() - j,
                {
                    let ghost v0 = views(vals@);
                    let ghost d0 = diags@;
                    let item = &list[j];
                    let (text, mut d) = match &item.data_type {
                        BlockDataType::Value(s) => (chars_of(s.as_str()), Vec::new()),
                        BlockDataType::Hole(c) => self.arg_text_exec(data, *c, &item.block_type, path, fuel),
                    };
                    let ghost t = text@;
                    vals.push(text);
                    diags.append(&mut d);
                    j = j + 1;
                    let ghost rest = hole_texts(self.map@, data.map@, entries, j as int, path0, fuel as nat);
                    assert(views(vals@) =~= v0.push(t));
                    assert(views(vals@) + rest.0 =~= v0 + (seq![t] + rest.0));
                    assert(diags@ + rest.1 =~= d0 + (hole_texts(self.map@, data.map@, entries, j - 1, path0, fuel as nat).1));
                }
                assert(views(vals@) =~= hole_texts(self.map@, data.map@, entries, 0, path0, fuel as nat).0);
                assert(diags@ =~= hole_texts(self.map@, data.map@, entries, 0, path0, fuel as nat).1);
                (vals, diags)
            },
        }
    }

    fn holes_text_exec(&self, data: &BlockDataMap, e: u64, bt: &BlockType, path: &mut Vec<u64>, fuel: usize) -> (r: (Vec<char>, Vec<Diagnostic>))
        ensures
            r.0@ == holes_text(self.map@, data.map@, e, *bt, old(path)@, fuel as nat).0,
            r.1@ == holes_text(self.map@, data.map@, e, *bt, old(path)@, fuel as nat).1,
            final(path)@ == old(path)@,
        decreases fuel, 2int, 0int,
    {
        let (vals, mut hv_diags) = self.hole_values(data, e, path, fuel);
        let keys = hole_keys_exec(vals.len());
        let t = chars_of(bt.template_string.as_str());
        let (out, mut f_diags) = fill_template_exec(e, &t, &keys, &vals);
        let mut diags: Vec<Diagnostic> = Vec::new();
        if !data.map.contains_key(&e) {
            diags.push(Diagnostic::MissingHoles(e));
        }
        assert(diags@ =~= missing_diag(data.map@, e));
        diags.append(&mut hv_diags);
        diags.append(&mut f_diags);
        (out, diags)
    }

    fn child_text_exec(&self, data: &BlockDataMap, c: u64, bt: &BlockType, path: &mut Vec<u64>, fuel: usize) -> (r: (Vec<char>, Vec<Diagnostic>))
        ensures
            r.0@ == child_text(self.map@, data.map@, c, *bt, old(path)@, fuel as nat).0,
            r.1@ == child_text(self.map@, data.map@, c, *bt, old(path)@, fuel as nat).1,
            final(path)@ == old(path)@,
        decreases fuel, 0int, 0int,
    {
        if !self.map.contains_key(&c) {
            let mut d: Vec<Diagnostic> = Vec::new();
            d.push(Diagnostic::DanglingReference(c));
            assert(d@ =~= seq![Diagnostic::DanglingReference(c)]);
            return (Vec::new(), d);
        }
        if fuel == 0 || on_path(path, c) {
            let mut d: Vec<Diagnostic> = Vec::new();
            d.push(Diagnostic::Cycle(c));
            assert(d@ =~= seq![Diagnostic::Cycle(c)]);
            return (Vec::new(), d);
        }
        path.push(c);
        let r = self.node_text_exec(data, c, bt, path, fuel - 1);
        path.pop();
        r
    }

    fn slot_text_exec(&self, data: &BlockDataMap, e: u64, slot: usize, path: &mut Vec<u64>, fuel: usize) -> (r: Option<(Vec<char>, Vec<Diagnostic>)>)
        requires
            slot < 3,
        ensures
            expansion_view(r) == slot_text(self.map@, data.map@, e, slot as int, old(path)@, fuel as nat),
            final(path)@ == old(path)@,
        decreases fuel, 1int, 0int,
    {
        match self.map.get(&e) {
            None => None,
            Some(slots) => match &slots[slot] {
                None => None,
                Some(child) => {
                    let r = self.child_text_exec(data, child.0, &child.1, path, fuel);
                    Some(r)
                },
            },
        }
    }

    fn node_body_exec(&self, data: &BlockDataMap, e: u64, bt: &BlockType, path: &mut Vec<u64>, fuel: usize) -> (r: (Vec<char>, Vec<Diagnostic>))
        ensures
            r.0@ == node_body(self.map@, data.map@, e, *bt, old(path)@, fuel as nat).0,
            r.1@ == node_body(self.map@, data.map@, e, *bt, old(path)@, fuel as nat).1,
            final(path)@ == old(path)@,
        decreases fuel, 2int, 0int,
    {
        let (mut vals, mut hv_diags) = self.hole_values(data, e, path, fuel);
        let mut keys = hole_keys_exec(vals.len());
        let left = self.slot_text_exec(data, e, LEFT_SLOT, path, fuel);
        let right = self.slot_text_exec(data, e, RIGHT_SLOT, path, fuel);
        let h = bt.holes.len();
        let mut branch_diags: Vec<Diagnostic> = Vec::new();
        add_branch(h, 0, left, &mut keys, &mut vals, &mut branch_diags);
        add_branch(h, 1, right, &mut keys, &mut vals, &mut branch_diags);
        let t = chars_of(bt.template_string.as_str());
        let (out, mut f_diags) = fill_template_exec(e, &t, &keys, &vals);
        let mut diags: Vec<Diagnostic> = Vec::new();
        if !data.map.contains_key(&e) {
            diags.push(Diagnostic::MissingHoles(e));
        }
        assert(diags@ =~= missing_diag(data.map@, e));
        diags.append(&mut hv_diags);
        diags.append(&mut branch_diags);
        diags.append(&mut f_diags);
        (out, diags)
    }

    fn node_text_exec(&self, data: &BlockDataMap, e: u64, bt: &BlockType, path: &mut Vec<u64>, fuel: usize) -> (r: (Vec<char>, Vec<Diagnostic>))
        ensures
            r.0@ == node_text(self.map@, data.map@, e, *bt, old(path)@, fuel as nat).0,
            r.1@ == node_text(self.map@, data.map@, e, *bt, old(path)@, fuel as nat).1,
            final(path)@ == old(path)@,
        decreases fuel, 3int, 0int,
    {
        let (mut out, mut diags) = self.node_body_exec(data, e, bt, path, fuel);
        match self.slot_text_exec(data, e, FLOW_SLOT, path, fuel) {
            Some((next, mut d)) => {
                let ghost o = out@;
                out.push('\n');
                let mut k: usize = 0;
                while k < next.len()
                    invariant
                        k <= next@.len(),
                        out@ == o + seq!['\n'] + next@.subrange(0, k as int),
                    decreases next.len() - k,
                {
                    out.push(next[k]);
                    k = k + 1;
                    assert(out@ =~= o + seq!['\n'] + next@.subrange(0, k as int));
                }
                assert(next@.subrange(0, next@.len() as int) =~= next@);
                diags.append(&mut d);
                (out, diags)
            },
            None => (out, diags),
        }
    }

    /// Generates the program's source text from its first registered start
    /// block, with the problems met on the way, or reports that there is no
    /// start block.
    pub fn generate(&self, block_data_map: &BlockDataMap) -> (r: Result<GeneratedCode, GenerateError>)
        ensures
            match program_text(self, block_data_map) {
                Some(p) => r matches Ok(g) && g.code@ == p.0 && g.diagnostics@ == p.1,
                None => r == Err::<GeneratedCode, GenerateError>(GenerateError::MissingStart),
            },
    {
        let mut i: usize = 0;
        while i < self.blocks.len()
            invariant
                i <= self.blocks@.len(),
                start_from(self.blocks@, 0) == start_from(self.blocks@, i as int),
            decreases self.blocks.len() - i,
        {
            let start = &self.blocks[i];
            if start.1.is_start() {
                let mut path: Vec<u64> = Vec::new();
                path.push(start.0);
                assert(path@ =~= seq![start.0]);
                let (out, diags) = self.node_text_exec(block_data_map, start.0, &start.1, &mut path, self.map.len());
                return Ok(GeneratedCode { code: string_of(&out), diagnostics: diags });
            }
            i = i + 1;
        }
        Err(GenerateError::MissingStart)
    }

    /// The text of a block and everything below it: its template with hole
    /// values and branches substituted, followed by the text of its flow
    /// child on the next line. A block met again on its own path expands to
    /// nothing.
    pub fn traverse_branch(&self, entity: u64, block_type: &BlockType, block_data_map: &BlockDataMap) -> (r: String)
        ensures
            r@ == node_text(self.map@, block_data_map.map@, entity, *block_type, seq![entity], self.map@.len()).0,
    {
        let mut path: Vec<u64> = Vec::new();
        path.push(entity);
        assert(path@ =~= seq![entity]);
        let (out, _) = self.node_text_exec(block_data_map, entity, block_type, &mut path, self.map.len());
        string_of(&out)
    }
}

impl Ast {
    pub fn new() -> (r: Ast)
        ensures
            r.wf(),
            r.map@ == Map::<u64, Connections>::empty(),
            r.blocks@ == Seq::<(u64, BlockType)>::empty(),
    {
        Ast { map: HashMap::new(), blocks: Vec::new() }
    }

    /// Finds the registered block `e`.
    fn find_block(&self, e: u64) -> (r: Option<usize>)
        ensures
            match r {
                Some(i) => block_index(self.blocks@, e, 0) == Some(i as int),
                None => block_index(self.blocks@, e, 0) is None,
            },
    {
        let mut i: usize = 0;
        while i < self.blocks.len()
            invariant
                i <= self.blocks@.len(),
                block_index(self.blocks@, e, 0) == block_index(self.blocks@, e, i as int),
            decreases self.blocks.len() - i,
        {
            if self.blocks[i].0 == e {
                return Some(i);
            }
            i = i + 1;
        }
        None
    }

    /// Registers block `entity` with its type. A block registered before
    /// keeps its children and takes the new type.
    pub fn register_node(&mut self, entity: u64, block_type: BlockType)
        requires
            old(self).wf(),
        ensures
            final(self).wf(),
            final(self).map@.dom() == old(self).map@.dom().insert(entity),
            forall|k: u64| k != entity && #[trigger] old(self).map@.contains_key(k) ==> final(self).map@[k] == old(self).map@[k],
            final(self).map@[entity]@ == slots_or_empty(old(self).map@, entity),
            final(self).blocks@ == match block_index(old(self).blocks@, entity, 0) {
                Some(i) => old(self).blocks@.update(i, (entity, block_type)),
                None => old(self).blocks@.push((entity, block_type)),
            },
    {
        proof {
            lemma_block_index(self.blocks@, entity, 0);
        }
        match self.find_block(entity) {
            Some(i) => {
                self.blocks.set(i, (entity, block_type));
            },
            None => {
                self.blocks.push((entity, block_type));
            },
        }
        if !self.map.contains_key(&entity) {
            let slots: Connections = [None, None, None];
            assert(slots@ =~= no_children());
            self.map.insert(entity, slots);
        }
        assert(self.map@.dom() =~= old(self).map@.dom().insert(entity));
    }

    /// Drops block `entity` and its slots. Other blocks' slots and holes that
    /// name it are left as they are.
    pub fn remove_node(&mut self, entity: u64)
        requires
            old(self).wf(),
        ensures
            final(self).wf(),
            final(self).map@ == old(self).map@.remove(entity),
            final(self).blocks@ == match block_index(old(self).blocks@, entity, 0) {
                Some(i) => old(self).blocks@.remove(i),
                None => old(self).blocks@,
            },
    {
        proof {
            lemma_block_index(self.blocks@, entity, 0);
        }
        match self.find_block(entity) {
            Some(i) => {
                self.blocks.remove(i);
            },
            None => {},
        }
        self.map.remove(&entity);
        assert(self.map@ =~= old(self).map@.remove(entity));
        assert forall|i: int| 0 <= i < self.blocks@.len() implies self.map@.contains_key(#[trigger] self.blocks@[i].0) by {
            match block_index(old(self).blocks@, entity, 0) {
                Some(k) => {
                    if i < k {
                        assert(self.blocks@[i] == old(self).blocks@[i]);
                    } else {
                        assert(self.blocks@[i] == old(self).blocks@[i + 1]);
                    }
                },
                None => {},
            }
        }
    }

    /// Puts `child` in `slot` of `parent`, replacing what was there.
    pub fn add_structural_edge(&mut self, parent: u64, slot: usize, child: (u64, BlockType))
        requires
            old(self).wf(),
            slot < 3,
        ensures
            final(self).wf(),
            final(self).blocks@ == old(self).blocks@,
            final(self).map@ == old(self).map@.insert(parent, final(self).map@[parent]),
            final(self).map@[parent]@ == slots_or_empty(old(self).map@, parent).update(slot as int, Some(child)),
    {
        let mut slots: Connections = match self.map.remove(&parent) {
            Some(s) => s,
            None => [None, None, None],
        };
        assert(slots@ == slots_or_empty(old(self).map@, parent));
        slots[slot] = Some(child);
        self.map.insert(parent, slots);
        assert(self.map@ =~= old(self).map@.insert(parent, self.map@[parent]));
    }

    /// Empties `slot` of `parent`; nothing changes where `parent` has no slots.
    pub fn remove_structural_edge(&mut self, parent: u64, slot: usize)
        requires
            old(self).wf(),
            slot < 3,
        ensures
            final(self).wf(),
            final(self).blocks@ == old(self).blocks@,
            !old(self).map@.contains_key(parent) ==> final(self).map@ == old(self).map@,
            old(self).map@.contains_key(parent) ==> final(self).map@ == old(self).map@.insert(parent, final(self).map@[parent])
                && final(self).map@[parent]@ == old(self).map@[parent]@.update(slot as int, None),
    {
        match self.map.remove(&parent) {
            Some(s) => {
                let mut slots = s;
                slots[slot] = None;
                self.map.insert(parent, slots);
                assert(self.map@ =~= old(self).map@.insert(parent, self.map@[parent]));
            },
            None => {},
        }
    }

    /// The left, right and flow children of `entity`, where it has slots.
    pub fn get_structural_children(&self, entity: u64) -> (r: Option<&Connections>)
        ensures
            match r {
                Some(c) => self.map@.contains_key(entity) && *c == self.map@[entity],
                None => !self.map@.contains_key(entity),
            },
    {
        self.map.get(&entity)
    }

    /// Applies an add request: a child in a parent's slot, or a registration.
    pub fn handle_add_to_ast(&mut self, event: AddToAst)
        requires
            old(self).wf(),
            event.parent matches Some(p) ==> p.1 < 3,
        ensures
            final(self).wf(),
            match event.parent {
                Some((parent, slot)) => {
                    &&& final(self).blocks@ == old(self).blocks@
                    &&& final(self).map@ == old(self).map@.insert(parent, final(self).map@[parent])
                    &&& final(self).map@[parent]@ == slots_or_empty(old(self).map@, parent).update(slot as int, Some(event.child))
                },
                None => {
                    let e = event.child.0;
                    &&& final(self).map@.dom() == old(self).map@.dom().insert(e)
                    &&& forall|k: u64| k != e && #[trigger] old(self).map@.contains_key(k) ==> final(self).map@[k] == old(self).map@[k]
                    &&& final(self).map@[e]@ == slots_or_empty(old(self).map@, e)
                    &&& final(self).blocks@ == match block_index(old(self).blocks@, e, 0) {
                        Some(i) => old(self).blocks@.update(i, event.child),
                        None => old(self).blocks@.push(event.child),
                    }
                },
            },
    {
        match event.parent {
            Some((parent, order)) => self.add_structural_edge(parent, order, event.child),
            None => self.register_node(event.child.0, event.child.1),
        }
    }

    /// Applies a remove request: a cleared slot, or a dropped block.
    pub fn handle_remove_from_ast(&mut self, event: RemoveFromAst)
        requires
            old(self).wf(),
            event.parent matches Some(p) ==> p.1 < 3,
        ensures
            final(self).wf(),
            match event.parent {
                Some((parent, slot)) => {
                    &&& final(self).blocks@ == old(self).blocks@
                    &&& !old(self).map@.contains_key(parent) ==> final(self).map@ == old(self).map@
                    &&& old(self).map@.contains_key(parent) ==> final(self).map@ == old(self).map@.insert(parent, final(self).map@[parent])
                        && final(self).map@[parent]@ == old(self).map@[parent]@.update(slot as int, None)
                },
                None => {
                    &&& final(self).map@ == old(self).map@.remove(event.child)
                    &&& final(self).blocks@ == match block_index(old(self).blocks@, event.child, 0) {
                        Some(i) => old(self).blocks@.remove(i),
                        None => old(self).blocks@,
                    }
                },
            },
    {
        match event.parent {
            Some((parent, order)) => self.remove_structural_edge(parent, order),
            None => self.remove_node(event.child),
        }
    }
}

/// Where `block_index` points, and that it finds every registered block.
pub proof fn lemma_block_index(blocks: Seq<(u64, BlockType)>, e: u64, i: int)
    requires
        0 <= i,
    ensures
        match block_index(blocks, e, i) {
            Some(k) => i <= k < blocks.len() && blocks[k].0 == e && forall|m: int| i <= m < k ==> blocks[m].0 != e,
            None => forall|m: int| i <= m < blocks.len() ==> blocks[m].0 != e,
        },
    decreases blocks.len() - i,
{
    if i < blocks.len() && blocks[i].0 != e {
        lemma_block_index(blocks, e, i + 1);
    }
}

/// The first index, from `i` on, whose position is at least `p`, where all
/// before it are below `p`: splitting there gives `with_hole`.
pub proof fn lemma_with_hole_split(s: Seq<BlockData>, d: BlockData, i: int)
    requires
        0 <= i <= s.len(),
        forall|m: int| 0 <= m < i ==> s[m].position < d.position,
        i == s.len() || s[i].position >= d.position,
    ensures
        with_hole(s, d) == (if i < s.len() && s[i].position == d.position {
            s.subrange(0, i) + seq![d] + s.subrange(i + 1, s.len() as int)
        } else {
            s.subrange(0, i) + seq![d] + s.subrange(i, s.len() as int)
        }),
    decreases i,
{
    if i > 0 {
        let t = s.drop_first();
        lemma_with_hole_split(t, d, i - 1);
        assert(t.subrange(0, i - 1) =~= s.subrange(1, i));
        assert(s.subrange(0, i) =~= seq![s[0]] + s.subrange(1, i));
        if i < s.len() {
            assert(t.subrange(i, t.len() as int) =~= s.subrange(i + 1, s.len() as int));
        }
        assert(t.subrange(i - 1, t.len() as int) =~= s.subrange(i, s.len() as int));
        if i < s.len() && s[i].position == d.position {
            assert(with_hole(s, d) =~= s.subrange(0, i) + seq![d] + s.subrange(i + 1, s.len() as int));
        } else {
            assert(with_hole(s, d) =~= s.subrange(0, i) + seq![d] + s.subrange(i, s.len() as int));
        }
    } else {
        if s.len() > 0 && s[0].position == d.position {
            assert(s.drop_first() =~= s.subrange(1, s.len() as int));
        }
        assert(s.subrange(0, 0) + seq![d] + s.subrange(0, s.len() as int) =~= seq![d] + s);
        assert(seq![d] + s.drop_first() =~= s.subrange(0, 0) + seq![d] + s.subrange(1, s.len() as int));
    }
}

/// Where `hole_index` points.
pub proof fn lemma_hole_index(s: Seq<BlockData>, p: usize, i: int)
    requires
        0 <= i,
    ensures
        match hole_index(s, p, i) {
            Some(k) => i <= k < s.len() && s[k].position == p && forall|m: int| i <= m < k ==> s[m].position != p,
            None => forall|m: int| i <= m < s.len() ==> s[m].position != p,
        },
    decreases s.len() - i,
{
    if i < s.len() && s[i].position != p {
        lemma_hole_index(s, p, i + 1);
    }
}

impl BlockDataMap {
    pub fn new() -> (r: BlockDataMap)
        ensures
            r.wf(),
            r.map@ == Map::<u64, Vec<BlockData>>::empty(),
    {
        BlockDataMap { map: HashMap::new() }
    }

    /// Gives block `entity` an empty hole list, unless it has one.
    pub fn register_node(&mut self, entity: u64)
        requires
            old(self).wf(),
        ensures
            final(self).wf(),
            final(self).map@.dom() == old(self).map@.dom().insert(entity),
            forall|k: u64| #[trigger] old(self).map@.contains_key(k) ==> final(self).map@[k] == old(self).map@[k],
            !old(self).map@.contains_key(entity) ==> final(self).map@[entity]@ == Seq::<BlockData>::empty(),
    {
        if !self.map.contains_key(&entity) {
            self.map.insert(entity, Vec::new());
        }
        assert(self.map@.dom() =~= old(self).map@.dom().insert(entity));
    }

    /// Drops the hole list of block `entity`.
    pub fn remove_node(&mut self, entity: u64)
        requires
            old(self).wf(),
        ensures
            final(self).wf(),
            final(self).map@ == old(self).map@.remove(entity),
    {
        self.map.remove(&entity);
        assert(self.map@ =~= old(self).map@.remove(entity));
    }

    /// The hole list of `entity`, in position order.
    pub fn get_hole_values(&self, entity: u64) -> (r: Option<&Vec<BlockData>>)
        ensures
            match r {
                Some(v) => self.map@.contains_key(entity) && *v == self.map@[entity],
                None => !self.map@.contains_key(entity),
            },
    {
        self.map.get(&entity)
    }

    /// Sets what fills the hole of `owner` at `data.position`, replacing what
    /// was there.
    pub fn set_hole_value(&mut self, owner: u64, data: BlockData)
        requires
            old(self).wf(),
        ensures
            final(self).wf(),
            final(self).map@.dom() == old(self).map@.dom().insert(owner),
            forall|k: u64| k != owner && #[trigger] old(self).map@.contains_key(k) ==> final(self).map@[k] == old(self).map@[k],
            final(self).map@[owner]@ == with_hole(entries_of(old(self).map@, owner), data),
    {
        let mut list: Vec<BlockData> = match self.map.remove(&owner) {
            Some(l) => l,
            None => Vec::new(),
        };
        let ghost s = list@;
        assert(s == entries_of(old(self).map@, owner));
        assert(sorted_by_position(s));
        let mut i: usize = 0;
        while i < list.len() && list[i].position < data.position
            invariant
                list@ == s,
                i <= s.len(),
                forall|m: int| 0 <= m < i ==> s[m].position < data.position,
            decreases list.len() - i,
        {
            i = i + 1;
        }
        proof {
            lemma_with_hole_split(s, data, i as int);
        }
        let ghost w = with_hole(s, data);
        if i < list.len() && list[i].position == data.position {
            list.set(i, data);
            assert(list@ =~= w);
        } else {
            list.insert(i, data);
            assert(list@ =~= w);
        }
        assert forall|a: int, b: int| 0 <= a < b < w.len() implies w[a].position < w[b].position by {
            if i < s.len() && s[i as int].position == data.position {
                if a < i && b > i { assert(w[b] == s[b]); }
                if a > i { assert(w[a] == s[a]); assert(w[b] == s[b]); }
                if a == i { assert(w[b] == s[b]); }
            } else {
                if a < i && b > i { assert(w[b] == s[b - 1]); }
                if a > i { assert(w[a] == s[a - 1]); assert(w[b] == s[b - 1]); }
                if a == i { assert(w[b] == s[b - 1]); }
            }
        }
        self.map.insert(owner, list);
        assert(self.map@.dom() =~= old(self).map@.dom().insert(owner));
    }

    /// Empties the hole of `owner` at `position`; nothing changes where
    /// `owner` has no hole list.
    pub fn remove_hole_value(&mut self, owner: u64, position: usize)
        requires
            old(self).wf(),
        ensures
            final(self).wf(),
            !old(self).map@.contains_key(owner) ==> final(self).map@ == old(self).map@,
            old(self).map@.contains_key(owner) ==> final(self).map@ == old(self).map@.insert(owner, final(self).map@[owner])
                && final(self).map@[owner]@ == without_hole(old(self).map@[owner]@, position),
    {
        match self.map.remove(&owner) {
            Some(l) => {
                let mut list = l;
                let ghost s = list@;
                proof {
                    lemma_hole_index(s, position, 0);
                }
                let mut i: usize = 0;
                while i < list.len() && list[i].position != position
                    invariant
                        list@ == s,
                        i <= s.len(),
                        forall|m: int| 0 <= m < i ==> s[m].position != position,
                    decreases list.len() - i,
                {
                    i = i + 1;
                }
                if i < list.len() {
                    list.remove(i);
                }
                assert(list@ == without_hole(s, position));
                assert forall|a: int, b: int| 0 <= a < b < list@.len() implies list@[a].position < list@[b].position by {
                    if i < s.len() {
                        if a >= i { assert(list@[a] == s[a + 1]); }
                        if b >= i { assert(list@[b] == s[b + 1]); }
                    }
                }
                self.map.insert(owner, list);
                assert(self.map@ =~= old(self).map@.insert(owner, self.map@[owner]));
            },
            None => {},
        }
    }
}

} // verus!
