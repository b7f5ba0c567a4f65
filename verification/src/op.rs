//! The operation record and what is visible of it at a logical clock.

use crate::ids::{ElemId, OpId};
use crate::types::{
    Action, KeyRef, KeyView, MarkData, MarkDataView, OpType, OpTypeView, ScalarValue, ScalarView,
};
use vstd::prelude::*;
use vstd::string::StrSliceExecFns;

verus! {

/// How the length of a sequence is counted: by its elements, or by the width
/// of its text.
#[derive(Debug, Clone, Copy, PartialEq, Eq, Structural)]
pub enum ListEncoding {
    List,
    Text,
}

/// A logical clock: for each actor, by its index, the greatest counter of
/// its operations that has been observed.
#[derive(Debug, Clone, PartialEq, Eq)]
pub struct Clock(pub Vec<u64>);

impl View for Clock {
    type V = Seq<u64>;

    open spec fn view(&self) -> Seq<u64> {
        self.0@
    }
}

/// Whether the clock `clock` has observed the operation `id`: the actor is
/// known to it, and the counter is no greater than the one it holds for the
/// actor.
pub open spec fn clock_covers(clock: Seq<u64>, id: OpId) -> bool {
    id.actor < clock.len() && id.counter <= clock[id.actor as int]
}

impl Clock {
    /// Whether the clock has observed the operation `id`.
    pub fn covers(&self, id: &OpId) -> (b: bool)
        ensures
            b == clock_covers(self@, *id),
    {
        id.actor < self.0.len() && id.counter <= self.0[id.actor]
    }
}

/// The view of an optional clock.
pub open spec fn clock_view(clock: Option<&Clock>) -> Option<Seq<u64>> {
    match clock {
        Some(c) => Some(c@),
        None => None,
    }
}

/// An operation as a mathematical object.
pub struct OpView {
    pub pos: usize,
    pub id: OpId,
    pub key: KeyView,
    pub action: Action,
    pub value: ScalarView,
    pub insert: bool,
    pub succ: Seq<OpId>,
    pub mark_name: Option<Seq<char>>,
    pub expand: bool,
}

impl OpView {
    /// The key under which the operation is grouped: the element that it
    /// inserts, if it inserts one, and its key otherwise.
    pub open spec fn elemid_or_key(self) -> KeyView {
        if self.insert {
            KeyView::SeqElem(ElemId(self.id))
        } else {
            self.key
        }
    }

    /// Whether the operation opens a mark.
    pub open spec fn is_mark_begin(self) -> bool {
        self.action == Action::Mark && self.mark_name is Some
    }

    /// Whether the operation closes a mark.
    pub open spec fn is_mark_end(self) -> bool {
        self.action == Action::Mark && self.mark_name is None
    }

    /// The name and the value of the mark that the operation opens.
    pub open spec fn mark_data(self) -> MarkDataView {
        MarkDataView { name: self.mark_name.unwrap(), value: self.value }
    }

    /// Whether the operation puts something at its key: it makes an object,
    /// sets a value, or opens a mark.
    pub open spec fn put_like(self) -> bool {
        self.action == Action::MakeMap || self.action == Action::MakeList || self.action
            == Action::MakeText || self.action == Action::MakeTable || self.action == Action::Put
            || self.is_mark_begin()
    }

    /// Whether the operation is in the scope of a clock: the clock has
    /// observed it and none of its successors. Without a clock, every
    /// successor in the store counts.
    pub open spec fn in_scope(self, clock: Option<Seq<u64>>) -> bool {
        match clock {
            Some(c) => clock_covers(c, self.id) && forall|i: int|
                0 <= i < self.succ.len() ==> !clock_covers(c, #[trigger] self.succ[i]),
            None => self.succ.len() == 0,
        }
    }

    /// Whether the operation is visible in the store: it puts something,
    /// and nothing has succeeded it.
    pub open spec fn visible(self) -> bool {
        self.put_like() && self.succ.len() == 0
    }

    /// Whether the operation is visible at a clock.
    pub open spec fn visible_at(self, clock: Option<Seq<u64>>) -> bool {
        self.put_like() && self.in_scope(clock)
    }

    /// What the operation adds to the length of its sequence: one as an
    /// element of a list; in a text, the number of characters of the text
    /// that it sets, and one for anything else.
    pub open spec fn width(self, encoding: ListEncoding) -> nat {
        match encoding {
            ListEncoding::List => 1,
            ListEncoding::Text => match self.value {
                ScalarView::Str(s) if self.action == Action::Put => s.len(),
                _ => 1,
            },
        }
    }

    /// Whether the value fits the action: an increment has an integer
    /// amount.
    pub open spec fn well_typed(self) -> bool {
        self.action == Action::Increment ==> self.value is Int || self.value is Uint
    }

    /// What the operation does.
    pub open spec fn op_type(self) -> OpTypeView {
        OpTypeView::from_action_and_value(self.action, self.value, self.mark_name, self.expand)
    }
}

/// An operation: one row across the columns, borrowing what it holds from
/// them.
#[derive(Debug, Clone, Copy)]
pub struct Op<'a> {
    /// The row of the operation in the columns.
    pub pos: usize,
    /// The identifier of the operation.
    pub id: OpId,
    /// The key in a map, or the element of a sequence, that it works on.
    pub key: KeyRef<'a>,
    /// What it does.
    pub action: Action,
    /// The value that it carries; null if it carries none.
    pub value: ScalarValue<'a>,
    /// Whether it inserts a new element into a sequence.
    pub insert: bool,
    /// The operations that overwrite it.
    pub succ: &'a [OpId],
    /// The name of the mark, if it opens one.
    pub mark_name: Option<&'a str>,
    /// The expand flag of a mark.
    pub expand: bool,
}

impl<'a> View for Op<'a> {
    type V = OpView;

    open spec fn view(&self) -> OpView {
        OpView {
            pos: self.pos,
            id: self.id,
            key: self.key@,
            action: self.action,
            value: self.value@,
            insert: self.insert,
            succ: self.succ@,
            mark_name: match self.mark_name {
                Some(name) => Some(name@),
                None => None,
            },
            expand: self.expand,
        }
    }
}

impl<'a> Op<'a> {
    /// The key under which the operation is grouped.
    pub fn elemid_or_key(&self) -> (k: KeyRef<'a>)
        ensures
            k@ == self@.elemid_or_key(),
    {
        if self.insert {
            KeyRef::SeqElem(ElemId(self.id))
        } else {
            self.key
        }
    }

    /// Whether the operation closes a mark.
    pub fn is_mark_end(&self) -> (b: bool)
        ensures
            b == self@.is_mark_end(),
    {
        match (self.action, self.mark_name) {
            (Action::Mark, None) => true,
            _ => false,
        }
    }

    /// The name and the value of the mark, if the operation opens one.
    pub fn mark_begin(&self) -> (m: Option<MarkData<'a>>)
        ensures
            match m {
                Some(data) => self@.is_mark_begin() && data@ == self@.mark_data(),
                None => !self@.is_mark_begin(),
            },
    {
        match (self.action, self.mark_name) {
            (Action::Mark, Some(name)) => Some(MarkData { name, value: self.value }),
            _ => None,
        }
    }

    /// Whether the operation puts something at its key.
    pub fn put_like(&self) -> (b: bool)
        ensures
            b == self@.put_like(),
    {
        match self.action {
            Action::MakeMap | Action::MakeList | Action::MakeText | Action::MakeTable
            | Action::Put => true,
            Action::Mark => self.mark_name.is_some(),
            Action::Delete | Action::Increment => false,
        }
    }

    /// Whether the operation is in the scope of the clock: observed by it,
    /// and shadowed by no successor that it has observed. Without a clock
    /// the successors in the store decide.
    pub fn scope_to_clock(&self, clock: Option<&Clock>) -> (b: bool)
        ensures
            b == self@.in_scope(clock_view(clock)),
    {
        match clock {
            None => self.succ.len() == 0,
            Some(c) => {
                if !c.covers(&self.id) {
                    return false;
                }
                let mut i: usize = 0;
                while i < self.succ.len()
                    invariant
                        i <= self.succ.len(),
                        clock_view(clock) == Some(c@),
                        clock_covers(c@, self.id),
                        forall|j: int| 0 <= j < i ==> !clock_covers(c@, #[trigger] self.succ@[j]),
                    decreases self.succ.len() - i,
                {
                    if c.covers(&self.succ[i]) {
                        assert(clock_covers(c@, self@.succ[i as int]));
                        return false;
                    }
                    i = i + 1;
                }
                true
            },
        }
    }

    /// Whether the operation is visible in the store.
    pub fn visible(&self) -> (b: bool)
        ensures
            b == self@.visible(),
    {
        self.put_like() && self.succ.len() == 0
    }

    /// Whether the operation is visible at the clock.
    pub fn visible_at(&self, clock: Option<&Clock>) -> (b: bool)
        ensures
            b == self@.visible_at(clock_view(clock)),
    {
        self.put_like() && self.scope_to_clock(clock)
    }

    /// What the operation adds to the length of its sequence.
    pub fn width(&self, encoding: ListEncoding) -> (w: usize)
        ensures
            w == self@.width(encoding),
    {
        match encoding {
            ListEncoding::List => 1,
            ListEncoding::Text => match (self.action, self.value) {
                (Action::Put, ScalarValue::Str(s)) => s.unicode_len(),
                _ => 1,
            },
        }
    }

    /// What the operation does.
    pub fn op_type(&self) -> (t: OpType<'a>)
        requires
            self@.well_typed(),
        ensures
            t@ == self@.op_type(),
    {
        OpType::from_action_and_value(self.action, self.value, self.mark_name, self.expand)
    }
}

} // verus!
