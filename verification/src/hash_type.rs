//! The structural role of a trie node, and the two tables that say which roles
//! may meet.

use crate::field::Fe;
use vstd::prelude::*;

verus! {

/// The structural role of a trie node at one position of a path.
#[derive(Clone, Copy, Debug, PartialEq, Eq, Structural)]
pub enum HashType {
    /// An empty slot.
    Empty,
    /// A leaf.
    Leaf,
    /// A branch.
    Middle,
    /// A leaf that an insertion pushes down into an extension.
    LeafExt,
    /// The last node of such an extension.
    LeafExtFinal,
}

impl HashType {
    /// The number that stands for the role in a cell. `Middle` is zero, so
    /// that a cell that was never assigned reads as a branch.
    pub open spec fn code(self) -> nat {
        match self {
            HashType::Middle => 0,
            HashType::Empty => 1,
            HashType::LeafExt => 2,
            HashType::LeafExtFinal => 3,
            HashType::Leaf => 4,
        }
    }

    /// The number that stands for the role in a cell.
    pub fn to_u64(self) -> (code: u64)
        ensures
            code == self.code(),
    {
        match self {
            HashType::Middle => 0,
            HashType::Empty => 1,
            HashType::LeafExt => 2,
            HashType::LeafExtFinal => 3,
            HashType::Leaf => 4,
        }
    }

    /// The field element that stands for the role in a cell.
    pub fn to_field(self) -> (value: Fe)
        ensures
            value.wf(),
            value@ == self.code(),
    {
        Fe::from_u64(self.to_u64())
    }

    /// The role that a number stands for, if any.
    pub fn from_u64(code: u64) -> (role: Option<HashType>)
        ensures
            role == role_of(code as nat),
    {
        if code == 0 {
            Some(HashType::Middle)
        } else if code == 1 {
            Some(HashType::Empty)
        } else if code == 2 {
            Some(HashType::LeafExt)
        } else if code == 3 {
            Some(HashType::LeafExtFinal)
        } else if code == 4 {
            Some(HashType::Leaf)
        } else {
            None
        }
    }

    /// A role is the role of its code, and of no other number.
    pub proof fn lemma_role_of_code(self, code: nat)
        ensures
            role_of(self.code()) == Some(self),
            role_of(code) == Some(self) <==> code == self.code(),
    {
    }

    /// Different roles have different codes.
    pub proof fn lemma_code_injective(a: HashType, b: HashType)
        requires
            a.code() == b.code(),
        ensures
            a == b,
    {
    }
}

/// The legal pairs of an old and a new role of one node: a node is created as
/// a leaf, a leaf is rewritten as a leaf, and everything else on the path is or
/// becomes a branch.
pub open spec fn type_pair_allowed(old_type: HashType, new_type: HashType) -> bool {
    (old_type, new_type) == (HashType::Empty, HashType::Leaf) || (old_type, new_type) == (
        HashType::Leaf,
        HashType::Leaf,
    ) || (old_type, new_type) == (HashType::Middle, HashType::Middle) || (old_type, new_type) == (
        HashType::LeafExt,
        HashType::Middle,
    ) || (old_type, new_type) == (HashType::LeafExtFinal, HashType::Middle)
}

/// The legal steps of one role column from a row to the next, down a path:
/// branches chain freely, an extension runs into its final node, and the final
/// node is followed by a leaf or an empty slot.
pub open spec fn transition_allowed(previous: HashType, current: HashType) -> bool {
    match previous {
        HashType::Middle => true,
        HashType::LeafExt => current == HashType::LeafExt || current == HashType::LeafExtFinal,
        HashType::LeafExtFinal => current == HashType::Leaf || current == HashType::Empty,
        _ => false,
    }
}

/// The role that a number stands for, if any.
pub open spec fn role_of(code: nat) -> Option<HashType> {
    if code == 0 {
        Some(HashType::Middle)
    } else if code == 1 {
        Some(HashType::Empty)
    } else if code == 2 {
        Some(HashType::LeafExt)
    } else if code == 3 {
        Some(HashType::LeafExtFinal)
    } else if code == 4 {
        Some(HashType::Leaf)
    } else {
        None
    }
}

/// Two numbers stand for a legal pair of an old and a new role.
pub open spec fn pair_codes_allowed(old_code: nat, new_code: nat) -> bool {
    match (role_of(old_code), role_of(new_code)) {
        (Some(a), Some(b)) => type_pair_allowed(a, b),
        _ => false,
    }
}

/// Two numbers stand for a legal step from one role to the next.
pub open spec fn step_codes_allowed(previous_code: nat, current_code: nat) -> bool {
    match (role_of(previous_code), role_of(current_code)) {
        (Some(a), Some(b)) => transition_allowed(a, b),
        _ => false,
    }
}

/// The rows of the type-pairing table.
pub open spec fn type_pairs() -> Seq<(HashType, HashType)> {
    seq![
        (HashType::Empty, HashType::Leaf),
        (HashType::Leaf, HashType::Leaf),
        (HashType::Middle, HashType::Middle),
        (HashType::LeafExt, HashType::Middle),
        (HashType::LeafExtFinal, HashType::Middle),
    ]
}

/// The rows of the vertical-transition table.
pub open spec fn transitions() -> Seq<(HashType, HashType)> {
    seq![
        (HashType::Middle, HashType::Middle),
        (HashType::Middle, HashType::Empty),
        (HashType::Middle, HashType::Leaf),
        (HashType::Middle, HashType::LeafExt),
        (HashType::Middle, HashType::LeafExtFinal),
        (HashType::LeafExt, HashType::LeafExt),
        (HashType::LeafExt, HashType::LeafExtFinal),
        (HashType::LeafExtFinal, HashType::Leaf),
        (HashType::LeafExtFinal, HashType::Empty),
    ]
}

/// The type-pairing table holds exactly the legal pairs.
pub proof fn lemma_type_pairs(old_type: HashType, new_type: HashType)
    ensures
        type_pair_allowed(old_type, new_type) <==> exists|i: int|
            0 <= i < type_pairs().len() && #[trigger] type_pairs()[i] == (old_type, new_type),
{
    let t = type_pairs();
    assert(t.len() == 5);
    assert(t[0] == (HashType::Empty, HashType::Leaf));
    assert(t[1] == (HashType::Leaf, HashType::Leaf));
    assert(t[2] == (HashType::Middle, HashType::Middle));
    assert(t[3] == (HashType::LeafExt, HashType::Middle));
    assert(t[4] == (HashType::LeafExtFinal, HashType::Middle));
}

/// The vertical-transition table holds exactly the legal steps.
pub proof fn lemma_transitions(previous: HashType, current: HashType)
    ensures
        transition_allowed(previous, current) <==> exists|i: int|
            0 <= i < transitions().len() && #[trigger] transitions()[i] == (previous, current),
{
    let t = transitions();
    assert(t.len() == 9);
    assert(t[0] == (HashType::Middle, HashType::Middle));
    assert(t[1] == (HashType::Middle, HashType::Empty));
    assert(t[2] == (HashType::Middle, HashType::Leaf));
    assert(t[3] == (HashType::Middle, HashType::LeafExt));
    assert(t[4] == (HashType::Middle, HashType::LeafExtFinal));
    assert(t[5] == (HashType::LeafExt, HashType::LeafExt));
    assert(t[6] == (HashType::LeafExt, HashType::LeafExtFinal));
    assert(t[7] == (HashType::LeafExtFinal, HashType::Leaf));
    assert(t[8] == (HashType::LeafExtFinal, HashType::Empty));
}

/// The two tables of role pairs.
#[derive(Clone, Debug)]
pub struct Mappings {
    /// The type-pairing table.
    pub op: Vec<(HashType, HashType)>,
    /// The vertical-transition table.
    pub trans: Vec<(HashType, HashType)>,
}

impl Mappings {
    /// The two tables, filled.
    pub fn new() -> (maps: Mappings)
        ensures
            maps.op@ == type_pairs(),
            maps.trans@ == transitions(),
    {
        let mut op: Vec<(HashType, HashType)> = Vec::new();
        op.push((HashType::Empty, HashType::Leaf));
        op.push((HashType::Leaf, HashType::Leaf));
        op.push((HashType::Middle, HashType::Middle));
        op.push((HashType::LeafExt, HashType::Middle));
        op.push((HashType::LeafExtFinal, HashType::Middle));
        let mut trans: Vec<(HashType, HashType)> = Vec::new();
        trans.push((HashType::Middle, HashType::Middle));
        trans.push((HashType::Middle, HashType::Empty));
        trans.push((HashType::Middle, HashType::Leaf));
        trans.push((HashType::Middle, HashType::LeafExt));
        trans.push((HashType::Middle, HashType::LeafExtFinal));
        trans.push((HashType::LeafExt, HashType::LeafExt));
        trans.push((HashType::LeafExt, HashType::LeafExtFinal));
        trans.push((HashType::LeafExtFinal, HashType::Leaf));
        trans.push((HashType::LeafExtFinal, HashType::Empty));
        assert(op@ =~= type_pairs());
        assert(trans@ =~= transitions());
        Mappings { op, trans }
    }

    /// Whether a pair of an old and a new role is in the type-pairing table.
    pub fn allows_pair(&self, old_type: HashType, new_type: HashType) -> (found: bool)
        requires
            self.op@ == type_pairs(),
        ensures
            found == type_pair_allowed(old_type, new_type),
    {
        proof {
            lemma_type_pairs(old_type, new_type);
        }
        contains_pair(&self.op, old_type, new_type)
    }

    /// Whether a step from one role to the next is in the vertical-transition
    /// table.
    pub fn allows_transition(&self, previous: HashType, current: HashType) -> (found: bool)
        requires
            self.trans@ == transitions(),
        ensures
            found == transition_allowed(previous, current),
    {
        proof {
            lemma_transitions(previous, current);
        }
        contains_pair(&self.trans, previous, current)
    }
}

/// Whether a table holds a pair.
fn contains_pair(table: &Vec<(HashType, HashType)>, first: HashType, second: HashType) -> (found: bool)
    ensures
        found == exists|i: int| 0 <= i < table.len() && #[trigger] table[i] == (first, second),
{
    let mut i: usize = 0;
    while i < table.len()
        invariant
            i <= table.len(),
            forall|k: int| 0 <= k < i ==> #[trigger] table[k] != (first, second),
        decreases table.len() - i,
    {
        if table[i].0 == first && table[i].1 == second {
            return true;
        }
        i = i + 1;
    }
    false
}

} // verus!
