use vstd::prelude::*;
use crate::text::{chars_of, contains_exec, contains_text, lower_of, lowercase, same_text};

verus! {

/// The category of value that a hole of a block expects.
#[derive(Debug, Clone, PartialEq, Eq)]
pub enum HoleType {
    Unit,
    Any,
    Number,
    String,
    Bool,
    Comparitor,
    Variable,
    Type(String),
}

/// The family a block belongs to, used to colour it.
#[derive(Debug, Clone, Copy, PartialEq, Eq)]
pub enum ConceptType {
    ControlFlow,
    Input,
    Output,
}

/// A side of a block where a connection line may attach.
#[derive(Debug, Clone, Copy, PartialEq, Eq)]
pub enum ConnectionDirection {
    Left,
    Right,
    Top,
    Bottom,
    Center,
}

/// Index of the structural slot that holds the left branch.
pub const LEFT_SLOT: usize = 0;

/// Index of the structural slot that holds the right branch.
pub const RIGHT_SLOT: usize = 1;

/// Index of the structural slot that holds the next statement.
pub const FLOW_SLOT: usize = 2;

impl ConnectionDirection {
    /// The connector direction that stands for a connector index of a block.
    pub open spec fn direction_of(index: int) -> Option<ConnectionDirection> {
        if index == 0 {
            Some(ConnectionDirection::Bottom)
        } else if index == 1 {
            Some(ConnectionDirection::Left)
        } else if index == 2 {
            Some(ConnectionDirection::Right)
        } else {
            None
        }
    }

    /// The structural slot (or, past the three slots, the rank) of a direction.
    pub open spec fn parse_order(self) -> nat {
        match self {
            ConnectionDirection::Left => 0,
            ConnectionDirection::Right => 1,
            ConnectionDirection::Bottom => 2,
            ConnectionDirection::Top => 3,
            ConnectionDirection::Center => 4,
        }
    }

    pub fn get_direction(index: usize) -> (r: Option<ConnectionDirection>)
        ensures
            r == Self::direction_of(index as int),
    {
        match index {
            0 => Some(ConnectionDirection::Bottom),
            1 => Some(ConnectionDirection::Left),
            2 => Some(ConnectionDirection::Right),
            _ => None,
        }
    }

    pub fn get_parse_order(&self) -> (r: usize)
        ensures
            r == self.parse_order(),
    {
        match self {
            ConnectionDirection::Left => 0,
            ConnectionDirection::Right => 1,
            ConnectionDirection::Bottom => 2,
            ConnectionDirection::Top => 3,
            ConnectionDirection::Center => 4,
        }
    }
}

/// A catalog entry: what a block of this type looks like and the source text
/// it stands for.
#[derive(Debug, Clone, PartialEq)]
pub struct BlockType {
    pub name: String,
    pub language: String,
    pub holes: Vec<HoleType>,
    pub connectors: Vec<ConnectionDirection>,
    pub template_string: String,
    pub in_hole: bool,
    pub value: HoleType,
    pub concept_type: ConceptType,
}

/// The name that marks the block where a program starts.
pub open spec fn start_name() -> Seq<char> {
    seq!['S', 't', 'a', 'r', 't']
}

impl BlockType {
    /// Number of holes that the template of this type declares.
    pub open spec fn hole_count(&self) -> nat {
        self.holes@.len()
    }

    /// Whether blocks of this type begin a program.
    pub open spec fn is_start_spec(&self) -> bool {
        self.name@ == start_name()
    }

    pub fn is_start(&self) -> (r: bool)
        ensures
            r == self.is_start_spec(),
    {
        let cs = chars_of(self.name.as_str());
        let r = cs.len() == 5 && cs[0] == 'S' && cs[1] == 't' && cs[2] == 'a' && cs[3] == 'r' && cs[4] == 't';
        proof {
            if r {
                assert(cs@ =~= start_name());
            } else if cs@.len() == 5 {
                assert(cs@[0] != start_name()[0] || cs@[1] != start_name()[1] || cs@[2] != start_name()[2]
                    || cs@[3] != start_name()[3] || cs@[4] != start_name()[4]);
            }
        }
        r
    }

    pub fn get_template(&self) -> (r: String)
        ensures
            r@ == self.template_string@,
    {
        self.template_string.clone()
    }

    pub fn can_be_in_a_hole(&self) -> (r: bool)
        ensures
            r == self.in_hole,
    {
        self.in_hole
    }

    pub fn get_holes(&self) -> (r: usize)
        ensures
            r == self.hole_count(),
    {
        self.holes.len()
    }
}

/// The name that marks the block whose value type follows its text.
pub open spec fn text_name() -> Seq<char> {
    seq!['T', 'e', 'x', 't']
}

impl BlockType {
    /// For a text block, sets the value type to the one derived from the text
    /// it holds; other blocks stay as they are.
    pub fn set_text_value_type(&mut self, text: &str)
        ensures
            old(self).name@ == text_name() ==> *final(self) == (BlockType {
                value: HoleType::derived_from(text@),
                ..*old(self)
            }),
            old(self).name@ != text_name() ==> *final(self) == *old(self),
    {
        proof {
            reveal_strlit("Text");
            assert("Text"@ =~= text_name());
        }
        if same_text(self.name.as_str(), "Text") {
            self.value = HoleType::get_derived_type(text);
        }
    }
}

/// The blocks that a language offers.
#[derive(Debug)]
pub struct Language {
    pub blocks: Vec<BlockType>,
}

/// The first name, from index `i` on, that contains `q`.
pub open spec fn first_containing_from(names: Seq<Seq<char>>, q: Seq<char>, i: int) -> Option<int>
    decreases names.len() - i,
{
    if i < 0 || i >= names.len() {
        None
    } else if contains_text(names[i], q) {
        Some(i)
    } else {
        first_containing_from(names, q, i + 1)
    }
}

/// `first_containing_from` picks an index in range.
pub proof fn lemma_first_containing_in_range(names: Seq<Seq<char>>, q: Seq<char>, i: int)
    requires
        0 <= i,
    ensures
        first_containing_from(names, q, i) matches Some(k) ==> i <= k < names.len(),
    decreases names.len() - i,
{
    if i < names.len() && !contains_text(names[i], q) {
        lemma_first_containing_in_range(names, q, i + 1);
    }
}

/// The first block, from index `i` on, with the given name.
pub open spec fn block_named_from(blocks: Seq<BlockType>, name: Seq<char>, i: int) -> Option<int>
    decreases blocks.len() - i,
{
    if i < 0 || i >= blocks.len() {
        None
    } else if blocks[i].name@ == name {
        Some(i)
    } else {
        block_named_from(blocks, name, i + 1)
    }
}

/// The lower-case names of a list of blocks.
pub open spec fn lowered_names(blocks: Seq<BlockType>) -> Seq<Seq<char>> {
    blocks.map_values(|b: BlockType| lower_of(b.name@))
}

/// The texts of a list of strings.
pub open spec fn texts(names: Seq<String>) -> Seq<Seq<char>> {
    names.map_values(|n: String| n@)
}

/// The index of the first name that contains `query`.
pub fn first_containing(names: &Vec<String>, query: &str) -> (r: Option<usize>)
    ensures
        match first_containing_from(texts(names@), query@, 0) {
            Some(i) => r == Some(i as usize),
            None => r is None,
        },
        r matches Some(k) ==> k < names@.len(),
{
    let ghost ns = texts(names@);
    let q = chars_of(query);
    let mut i: usize = 0;
    while i < names.len()
        invariant
            ns == texts(names@),
            q@ == query@,
            i <= names@.len(),
            first_containing_from(ns, query@, 0) == first_containing_from(ns, query@, i as int),
        decreases names.len() - i,
    {
        let t = chars_of(names[i].as_str());
        if contains_exec(&t, &q) {
            return Some(i);
        }
        i = i + 1;
    }
    None
}

impl Language {
    /// The first block with exactly this name.
    pub fn get_block(&self, name: &str) -> (r: Option<&BlockType>)
        ensures
            match block_named_from(self.blocks@, name@, 0) {
                Some(i) => r == Some(&self.blocks@[i]),
                None => r is None,
            },
    {
        let mut i: usize = 0;
        while i < self.blocks.len()
            invariant
                i <= self.blocks@.len(),
                block_named_from(self.blocks@, name@, 0) == block_named_from(self.blocks@, name@, i as int),
            decreases self.blocks.len() - i,
        {
            if same_text(self.blocks[i].name.as_str(), name) {
                return Some(&self.blocks[i]);
            }
            i = i + 1;
        }
        None
    }

    /// The first block whose name contains `query`, ignoring case.
    pub fn search_block(&self, query: &str) -> (r: Option<&BlockType>)
        ensures
            match first_containing_from(lowered_names(self.blocks@), lower_of(query@), 0) {
                Some(i) => r == Some(&self.blocks@[i]),
                None => r is None,
            },
    {
        let mut names: Vec<String> = Vec::new();
        let mut i: usize = 0;
        while i < self.blocks.len()
            invariant
                i <= self.blocks@.len(),
                names@.len() == i,
                forall|k: int| 0 <= k < i ==> (#[trigger] names@[k])@ == lower_of(self.blocks@[k].name@),
            decreases self.blocks.len() - i,
        {
            names.push(lowercase(self.blocks[i].name.as_str()));
            i = i + 1;
        }
        assert(texts(names@) =~= lowered_names(self.blocks@));
        let q = lowercase(query);
        proof {
            lemma_first_containing_in_range(texts(names@), q@, 0);
        }
        match first_containing(&names, q.as_str()) {
            Some(k) => Some(&self.blocks[k]),
            None => None,
        }
    }
}

/// Two hole kinds are the same (a named type by the text of its name).
pub open spec fn same_kind(a: HoleType, b: HoleType) -> bool {
    match (a, b) {
        (HoleType::Type(x), HoleType::Type(y)) => x@ == y@,
        (HoleType::Type(_), _) => false,
        (_, HoleType::Type(_)) => false,
        _ => a == b,
    }
}

impl HoleType {
    pub fn same_kind_as(&self, other: &HoleType) -> (r: bool)
        ensures
            r == same_kind(*self, *other),
    {
        match (self, other) {
            (HoleType::Type(x), HoleType::Type(y)) => same_text(x.as_str(), y.as_str()),
            (HoleType::Unit, HoleType::Unit) => true,
            (HoleType::Any, HoleType::Any) => true,
            (HoleType::Number, HoleType::Number) => true,
            (HoleType::String, HoleType::String) => true,
            (HoleType::Bool, HoleType::Bool) => true,
            (HoleType::Comparitor, HoleType::Comparitor) => true,
            (HoleType::Variable, HoleType::Variable) => true,
            _ => false,
        }
    }
}

/// What happens when a dragged block is let go over a hole.
#[derive(Debug, Clone, Copy, PartialEq, Eq)]
pub enum DropOutcome {
    /// The block becomes the hole's argument.
    Placed,
    /// The block may sit in holes, but its value type is not the one the
    /// hole expects.
    WrongType,
    /// Nothing happens: the block may not sit in a hole, is already an
    /// argument, or owns the hole.
    Ignored,
}

/// The outcome of letting go of block `dragged`, of type `block`, over a
/// hole of kind `hole_type` that belongs to `hole_owner`.
pub open spec fn drop_outcome(block: BlockType, dragged: u64, already_arg: bool, hole_owner: u64, hole_type: HoleType) -> DropOutcome {
    if !block.in_hole || already_arg || hole_owner == dragged {
        DropOutcome::Ignored
    } else if hole_type is Any || same_kind(block.value, hole_type) {
        DropOutcome::Placed
    } else {
        DropOutcome::WrongType
    }
}

/// Decides what letting go of a dragged block over a hole does: a block
/// that may sit in holes, is not already an argument and does not own the
/// hole is placed where the hole takes any value or the block's value type
/// is the hole's kind, and refused otherwise.
pub fn drop_into_hole(block: &BlockType, dragged: u64, already_arg: bool, hole_owner: u64, hole_type: &HoleType) -> (r: DropOutcome)
    ensures
        r == drop_outcome(*block, dragged, already_arg, hole_owner, *hole_type),
{
    if !block.in_hole || already_arg || hole_owner == dragged {
        DropOutcome::Ignored
    } else if matches!(hole_type, HoleType::Any) || block.value.same_kind_as(hole_type) {
        DropOutcome::Placed
    } else {
        DropOutcome::WrongType
    }
}

} // verus!
