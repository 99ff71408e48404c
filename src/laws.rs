//! Properties of generation and of the stores, proved over the spec model.
use vstd::prelude::*;
use crate::ast::{
    child_of, child_text, entries_of, node_text, BlockDataType, fill_template, hole_keys, hole_texts, missing_diag, node_body, program_text,
    slot_text, sorted_by_position, start_from, with_hole, Ast, BlockData, BlockDataMap,
    Connections, Diagnostic,
};
use crate::catalog::{BlockType, FLOW_SLOT, LEFT_SLOT, RIGHT_SLOT};
use crate::text::{fill, fill_from, match_at, placeholder};

verus! {

/// Generation depends on what the stores hold and on nothing else: stores
/// with the same registered blocks, slots and hole lists generate the same
/// text and the same diagnostics. Generating twice from one state therefore
/// gives identical results.
pub proof fn lemma_generation_deterministic(a1: &Ast, d1: &BlockDataMap, a2: &Ast, d2: &BlockDataMap)
    requires
        a1.map@ == a2.map@,
        a1.blocks@ == a2.blocks@,
        d1.map@ == d2.map@,
    ensures
        program_text(a1, d1) == program_text(a2, d2),
{
}

/// Setting holes at two different positions gives the same hole list in
/// either order, so the order of substitution is the order of positions
/// whatever the order of insertion.
pub proof fn lemma_hole_order_irrelevant(s: Seq<BlockData>, a: BlockData, b: BlockData)
    requires
        sorted_by_position(s),
        a.position != b.position,
    ensures
        with_hole(with_hole(s, a), b) == with_hole(with_hole(s, b), a),
    decreases s.len(),
{
    reveal_with_fuel(with_hole, 3);
    if s.len() > 0 {
        let t = s.drop_first();
        assert(sorted_by_position(t));
        if a.position > s[0].position && b.position > s[0].position {
            lemma_hole_order_irrelevant(t, a, b);
            assert(with_hole(s, a) == seq![s[0]] + with_hole(t, a));
            assert(with_hole(s, b) == seq![s[0]] + with_hole(t, b));
            assert((seq![s[0]] + with_hole(t, a)).drop_first() =~= with_hole(t, a));
            assert((seq![s[0]] + with_hole(t, b)).drop_first() =~= with_hole(t, b));
        } else if a.position <= s[0].position && b.position <= s[0].position {
            if a.position < b.position {
                assert((seq![b] + t).drop_first() =~= t);
                assert((seq![b] + s).drop_first() =~= s);
            } else {
                assert((seq![a] + t).drop_first() =~= t);
                assert((seq![a] + s).drop_first() =~= s);
            }
        } else if a.position <= s[0].position {
            let ta = if a.position < s[0].position { s } else { t };
            assert(with_hole(s, a) == seq![a] + ta);
            assert((seq![a] + ta).drop_first() =~= ta);
            assert(with_hole(s, b) == seq![s[0]] + with_hole(t, b));
            if a.position == s[0].position {
                assert((seq![s[0]] + with_hole(t, b)).drop_first() =~= with_hole(t, b));
            } else {
                assert((seq![s[0]] + with_hole(t, b)).drop_first() =~= with_hole(t, b));
                assert(s.drop_first() == t);
            }
        } else {
            let tb = if b.position < s[0].position { s } else { t };
            assert(with_hole(s, b) == seq![b] + tb);
            assert((seq![b] + tb).drop_first() =~= tb);
            assert(with_hole(s, a) == seq![s[0]] + with_hole(t, a));
            assert((seq![s[0]] + with_hole(t, a)).drop_first() =~= with_hole(t, a));
        }
    }
}

/// Which placeholders a substitution pass replaces depends on the template
/// and the placeholders alone, never on the values put in: text inside a
/// value is not scanned again.
pub proof fn lemma_values_not_rescanned(
    t: Seq<char>,
    pats: Seq<Seq<char>>,
    v1: Seq<Seq<char>>,
    v2: Seq<Seq<char>>,
    used: Seq<bool>,
    i: int,
)
    ensures
        fill_from(t, pats, v1, used, i).1 == fill_from(t, pats, v2, used, i).1,
    decreases t.len() - i,
{
    if 0 <= i < t.len() {
        match match_at(t, pats, used, i, 0) {
            Some(j) => if 0 <= j < pats.len() && 0 < pats[j].len() <= t.len() - i {
                lemma_values_not_rescanned(t, pats, v1, v2, used.update(j, true), i + pats[j].len());
            },
            None => {
                lemma_values_not_rescanned(t, pats, v1, v2, used, i + 1);
            },
        }
    }
}

/// A template that is just the first placeholder becomes the value given
/// for it, exactly, whatever the value holds: placeholder text typed into a
/// value stays as typed.
pub proof fn lemma_value_kept_verbatim(v: Seq<char>)
    ensures
        fill(placeholder(1), seq![placeholder(1)], seq![v]) == v,
{
    let p = placeholder(1);
    let used = Seq::new(1, |j: int| false);
    assert(p.subrange(0, p.len() as int) =~= p);
    assert(match_at(p, seq![p], used, 0, 0) == Some(0int));
    assert(fill_from(p, seq![p], seq![v], used.update(0, true), p.len() as int).0 == Seq::<char>::empty());
    assert(v + Seq::<char>::empty() =~= v);
}

/// With no registered start block, and so in particular with no blocks at
/// all, there is no program to generate.
pub proof fn lemma_no_start_no_program(ast: &Ast, data: &BlockDataMap)
    requires
        forall|i: int| 0 <= i < ast.blocks@.len() ==> !(#[trigger] ast.blocks@[i]).1.is_start_spec(),
    ensures
        program_text(ast, data) is None,
{
    lemma_no_start_from(ast.blocks@, 0);
}

proof fn lemma_no_start_from(blocks: Seq<(u64, BlockType)>, i: int)
    requires
        0 <= i,
        forall|k: int| 0 <= k < blocks.len() ==> !(#[trigger] blocks[k]).1.is_start_spec(),
    ensures
        start_from(blocks, i) is None,
    decreases blocks.len() - i,
{
    if i < blocks.len() {
        lemma_no_start_from(blocks, i + 1);
    }
}

/// A block with a left branch and no right branch: the left branch fills the
/// first index after the declared holes, nothing is put in for the right
/// branch, so its placeholder stays as written, and no diagnostic names it.
pub proof fn lemma_left_branch_only(
    m: Map<u64, Connections>,
    d: Map<u64, Vec<BlockData>>,
    e: u64,
    bt: BlockType,
    path: Seq<u64>,
    fuel: nat,
)
    requires
        child_of(m, e, LEFT_SLOT as int) is Some,
        child_of(m, e, RIGHT_SLOT as int) is None,
        bt.holes@.len() + 1 <= usize::MAX,
    ensures
        ({
            let hv = hole_texts(m, d, crate::ast::entries_of(d, e), 0, path, fuel);
            let left = slot_text(m, d, e, LEFT_SLOT as int, path, fuel).unwrap();
            let keys = hole_keys(hv.0.len()) + seq![(bt.holes@.len() + 1) as usize];
            let f = fill_template(e, bt.template_string@, keys, hv.0 + seq![left.0]);
            node_body(m, d, e, bt, path, fuel) == (f.0, missing_diag(d, e) + hv.1 + left.1 + f.1)
        }),
{
    let hv = hole_texts(m, d, crate::ast::entries_of(d, e), 0, path, fuel);
    let left = slot_text(m, d, e, LEFT_SLOT as int, path, fuel).unwrap();
    let keys = hole_keys(hv.0.len()) + seq![(bt.holes@.len() + 1) as usize];
    assert(hole_keys(hv.0.len()) + seq![(bt.holes@.len() + 1) as usize] + Seq::<usize>::empty() =~= keys);
    assert(hv.0 + seq![left.0] + Seq::<Seq<char>>::empty() =~= hv.0 + seq![left.0]);
    assert(missing_diag(d, e) + hv.1 + left.1 + Seq::<Diagnostic>::empty() =~= missing_diag(d, e) + hv.1 + left.1);
}

/// Every hole of block `e` holds literal text.
pub open spec fn literal_holes(d: Map<u64, Vec<BlockData>>, e: u64) -> bool {
    forall|i: int| 0 <= i < entries_of(d, e).len() ==> (#[trigger] entries_of(d, e)[i]).data_type is Value
}

/// The ids of a list of blocks.
pub open spec fn ids(ns: Seq<(u64, BlockType)>) -> Seq<u64> {
    ns.map_values(|n: (u64, BlockType)| n.0)
}

/// `ns` is a chain of distinct registered blocks with literal holes and no
/// branches, each the flow child of the one before, the last with no flow
/// child.
pub open spec fn flow_chain(m: Map<u64, Connections>, d: Map<u64, Vec<BlockData>>, ns: Seq<(u64, BlockType)>) -> bool {
    &&& ns.len() > 0
    &&& ids(ns).no_duplicates()
    &&& forall|i: int| 0 <= i < ns.len() ==> {
        &&& m.contains_key(#[trigger] ns[i].0)
        &&& child_of(m, ns[i].0, LEFT_SLOT as int) is None
        &&& child_of(m, ns[i].0, RIGHT_SLOT as int) is None
        &&& literal_holes(d, ns[i].0)
    }
    &&& forall|i: int| 0 <= i < ns.len() - 1 ==> child_of(m, (#[trigger] ns[i]).0, FLOW_SLOT as int) == Some(ns[i + 1])
    &&& child_of(m, ns.last().0, FLOW_SLOT as int) is None
}

/// The line that one block of a chain stands for.
pub open spec fn chain_line(m: Map<u64, Connections>, d: Map<u64, Vec<BlockData>>, n: (u64, BlockType)) -> Seq<char> {
    node_body(m, d, n.0, n.1, Seq::empty(), 0).0
}

/// The lines of the blocks of a chain from index `i` on, joined by newlines.
pub open spec fn chain_lines(m: Map<u64, Connections>, d: Map<u64, Vec<BlockData>>, ns: Seq<(u64, BlockType)>, i: int) -> Seq<char>
    decreases ns.len() - i,
{
    if i < 0 || i >= ns.len() {
        Seq::empty()
    } else if i == ns.len() - 1 {
        chain_line(m, d, ns[i])
    } else {
        chain_line(m, d, ns[i]) + seq!['\n'] + chain_lines(m, d, ns, i + 1)
    }
}

proof fn lemma_literal_hole_texts(
    m: Map<u64, Connections>,
    d: Map<u64, Vec<BlockData>>,
    entries: Seq<BlockData>,
    j: int,
    path_a: Seq<u64>,
    fuel_a: nat,
    path_b: Seq<u64>,
    fuel_b: nat,
)
    requires
        forall|i: int| 0 <= i < entries.len() ==> (#[trigger] entries[i]).data_type is Value,
    ensures
        hole_texts(m, d, entries, j, path_a, fuel_a) == hole_texts(m, d, entries, j, path_b, fuel_b),
    decreases entries.len() - j,
{
    if 0 <= j < entries.len() {
        lemma_literal_hole_texts(m, d, entries, j + 1, path_a, fuel_a, path_b, fuel_b);
    }
}

proof fn lemma_chain_body(m: Map<u64, Connections>, d: Map<u64, Vec<BlockData>>, e: u64, bt: BlockType, path: Seq<u64>, fuel: nat)
    requires
        literal_holes(d, e),
        child_of(m, e, LEFT_SLOT as int) is None,
        child_of(m, e, RIGHT_SLOT as int) is None,
    ensures
        node_body(m, d, e, bt, path, fuel) == node_body(m, d, e, bt, Seq::empty(), 0),
{
    lemma_literal_hole_texts(m, d, entries_of(d, e), 0, path, fuel, Seq::empty(), 0);
}

proof fn lemma_chain_from(m: Map<u64, Connections>, d: Map<u64, Vec<BlockData>>, ns: Seq<(u64, BlockType)>, i: int)
    requires
        flow_chain(m, d, ns),
        m.dom().finite(),
        0 <= i < ns.len(),
        m.len() >= ns.len(),
    ensures
        node_text(m, d, ns[i].0, ns[i].1, ids(ns).subrange(0, i + 1), (m.len() - i) as nat).0 == chain_lines(m, d, ns, i),
    decreases ns.len() - i,
{
    let path = ids(ns).subrange(0, i + 1);
    let fuel = (m.len() - i) as nat;
    lemma_chain_body(m, d, ns[i].0, ns[i].1, path, fuel);
    if i < ns.len() - 1 {
        lemma_chain_from(m, d, ns, i + 1);
        let next = ns[i + 1];
        assert(child_of(m, ns[i].0, FLOW_SLOT as int) == Some(next));
        assert(!path.contains(next.0)) by {
            if path.contains(next.0) {
                let k = choose|k: int| 0 <= k < path.len() && path[k] == next.0;
                assert(ids(ns)[k] == ids(ns)[i + 1]);
            }
        }
        assert(path.push(next.0) =~= ids(ns).subrange(0, i + 2));
        assert(child_text(m, d, next.0, next.1, path, fuel) == node_text(m, d, next.0, next.1, path.push(next.0), (fuel - 1) as nat));
    }
}

/// A chain of blocks joined only by flow edges, with literal holes and no
/// branches, generates one line per block, in the order of the chain, joined
/// by newlines and with nothing after the last.
pub proof fn lemma_flow_chain_lines(m: Map<u64, Connections>, d: Map<u64, Vec<BlockData>>, ns: Seq<(u64, BlockType)>)
    requires
        flow_chain(m, d, ns),
        m.dom().finite(),
    ensures
        node_text(m, d, ns[0].0, ns[0].1, seq![ns[0].0], m.len()).0 == chain_lines(m, d, ns, 0),
{
    ids(ns).unique_seq_to_set();
    assert(ids(ns).to_set().subset_of(m.dom())) by {
        assert forall|x: u64| ids(ns).to_set().contains(x) implies m.dom().contains(x) by {
            let k = choose|k: int| 0 <= k < ids(ns).len() && ids(ns)[k] == x;
            assert(m.contains_key(ns[k].0));
        }
    }
    vstd::set_lib::lemma_len_subset(ids(ns).to_set(), m.dom());
    lemma_chain_from(m, d, ns, 0);
    assert(ids(ns).subrange(0, 1) =~= seq![ns[0].0]);
}

/// The depth budget never cuts a walk short. A walk starts with a budget of
/// one step per registered block, and each step puts one more registered
/// block on the path; when the budget is spent, every registered block is on
/// the path, so the block reached is one that is being expanded. A block is
/// therefore reported as a cycle only where it is reached from itself.
pub proof fn lemma_budget_never_binds(m: Map<u64, Connections>, path: Seq<u64>, c: u64)
    requires
        m.dom().finite(),
        path.len() >= 1,
        path.drop_first().no_duplicates(),
        forall|k: int| 1 <= k < path.len() ==> m.contains_key(#[trigger] path[k]),
        path.len() - 1 == m.len(),
        m.contains_key(c),
    ensures
        path.contains(c),
{
    let steps = path.drop_first();
    steps.unique_seq_to_set();
    if !steps.contains(c) {
        let seen = steps.to_set().insert(c);
        assert(seen.subset_of(m.dom())) by {
            assert forall|x: u64| seen.contains(x) implies m.dom().contains(x) by {
                if x != c {
                    let k = choose|k: int| 0 <= k < steps.len() && steps[k] == x;
                    assert(m.contains_key(path[k + 1]));
                }
            }
        }
        vstd::set_lib::lemma_len_subset(seen, m.dom());
        assert(!steps.to_set().contains(c));
    } else {
        let k = choose|k: int| 0 <= k < steps.len() && steps[k] == c;
        assert(path[k + 1] == c);
    }
}

} // verus!
