//! Identifiers of operations and of the elements of a sequence.

use vstd::prelude::*;

verus! {

/// The identifier of an operation: a counter and the index of the actor that
/// made it.
#[derive(Debug, Clone, Copy, PartialEq, Eq, Hash, PartialOrd, Ord, Structural)]
pub struct OpId {
    pub counter: u64,
    pub actor: usize,
}

impl OpId {
    /// The identifier with the given counter and actor.
    pub fn new(counter: u64, actor: usize) -> (id: OpId)
        ensures
            id == (OpId { counter, actor }),
    {
        OpId { counter, actor }
    }

    /// The identifier that the same actor gave just before this one, if the
    /// counter is not at its start.
    pub open spec fn spec_prev(self) -> Option<OpId> {
        if self.counter == 0 {
            None
        } else {
            Some(OpId { counter: (self.counter - 1) as u64, actor: self.actor })
        }
    }

    /// The identifier that the same actor gave just before this one, if the
    /// counter is not at its start.
    pub fn prev(&self) -> (p: Option<OpId>)
        ensures
            p == self.spec_prev(),
    {
        if self.counter == 0 {
            None
        } else {
            Some(OpId { counter: self.counter - 1, actor: self.actor })
        }
    }

    /// Whether the two identifiers are the same.
    pub fn same(&self, other: &OpId) -> (b: bool)
        ensures
            b == (*self == *other),
    {
        self.counter == other.counter && self.actor == other.actor
    }
}

/// The identifier of an element of a sequence: the operation that inserted
/// it.
#[derive(Debug, Clone, Copy, PartialEq, Eq, Hash, PartialOrd, Ord, Structural)]
pub struct ElemId(pub OpId);

} // verus!
