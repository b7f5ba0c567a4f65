//! Grouping the operations of a walk by key: each batch holds the
//! operations of one key that are in the scope of a clock.

use crate::op::{Clock, Op, OpView};
use crate::op_iter::{op_views, owned_clock_view, rows_have_successors, OpQueryTerm};
use crate::types::{Action, KeyRef, KeyView};
use vstd::prelude::*;

verus! {

/// A batch as a mathematical object.
pub struct FoundView {
    /// The rows of the operations of the batch.
    pub ops_pos: Seq<usize>,
    /// The operations of the batch.
    pub ops: Seq<OpView>,
    /// The row after the last operation seen for the key, in scope or not.
    pub end_pos: usize,
}

impl FoundView {
    /// The batch that has seen nothing.
    pub open spec fn empty() -> FoundView {
        FoundView { ops_pos: Seq::empty(), ops: Seq::empty(), end_pos: 0 }
    }

    /// The batch after it has seen `op`: it ends after `op`, and holds `op`
    /// if `op` is in the scope of the clock.
    pub open spec fn absorb(self, op: OpView, clock: Option<Seq<u64>>) -> FoundView {
        if op.in_scope(clock) {
            FoundView {
                ops_pos: self.ops_pos.push(op.pos),
                ops: self.ops.push(op),
                end_pos: (op.pos + 1) as usize,
            }
        } else {
            FoundView { end_pos: (op.pos + 1) as usize, ..self }
        }
    }

    /// The batch after it has seen the operations of `run`, the first one
    /// first.
    pub open spec fn absorb_all(self, run: Seq<OpView>, clock: Option<Seq<u64>>) -> FoundView
        decreases run.len(),
    {
        if run.len() == 0 {
            self
        } else {
            self.absorb(run[0], clock).absorb_all(run.skip(1), clock)
        }
    }

    /// The batch as it is handed out: itself if it holds an operation,
    /// nothing if it holds none.
    pub open spec fn emit(self) -> Seq<FoundView> {
        if self.ops.len() > 0 {
            seq![self]
        } else {
            Seq::empty()
        }
    }
}

/// The operations of one key that a walk found in the scope of a clock.
#[derive(Debug, Clone, Default)]
pub struct OpsFound<'a> {
    pub ops_pos: Vec<usize>,
    pub ops: Vec<Op<'a>>,
    pub end_pos: usize,
}

impl<'a> View for OpsFound<'a> {
    type V = FoundView;

    open spec fn view(&self) -> FoundView {
        FoundView { ops_pos: self.ops_pos@, ops: op_views(self.ops@), end_pos: self.end_pos }
    }
}

impl<'a> OpsFound<'a> {
    /// The batch that has seen nothing.
    pub fn new() -> (f: OpsFound<'a>)
        ensures
            f@ == FoundView::empty(),
    {
        let f = OpsFound { ops_pos: Vec::new(), ops: Vec::new(), end_pos: 0 };
        assert(f@.ops =~= Seq::<OpView>::empty());
        f
    }
}

/// Whether an operation takes part in the grouping: increments do not.
pub open spec fn grouped(op: OpView) -> bool {
    op.action != Action::Increment
}

/// The batches that are still handed out from a state of the grouping:
/// `rest` is what the walk has left, `last_key` the key of the batch that is
/// being filled, and `found` that batch.
pub open spec fn batches_from(
    rest: Seq<OpView>,
    last_key: Option<KeyView>,
    found: Option<FoundView>,
    clock: Option<Seq<u64>>,
) -> Seq<FoundView>
    decreases rest.len(),
{
    if rest.len() == 0 {
        match found {
            Some(f) => f.emit(),
            None => Seq::empty(),
        }
    } else {
        let op = rest[0];
        if !grouped(op) {
            batches_from(rest.skip(1), last_key, found, clock)
        } else if last_key != Some(op.elemid_or_key()) {
            let done = match found {
                Some(f) => f.emit(),
                None => Seq::empty(),
            };
            done + batches_from(
                rest.skip(1),
                Some(op.elemid_or_key()),
                Some(FoundView::empty().absorb(op, clock)),
                clock,
            )
        } else {
            batches_from(
                rest.skip(1),
                last_key,
                match found {
                    Some(f) => Some(f.absorb(op, clock)),
                    None => None,
                },
                clock,
            )
        }
    }
}

/// A walk that hands out the operations of another walk batch by batch.
pub struct OpsFoundIter<'a, I: OpQueryTerm<'a>> {
    iter: I,
    clock: Option<Clock>,
    last_key: Option<KeyRef<'a>>,
    found: Option<OpsFound<'a>>,
}

/// The view of an optional key.
pub open spec fn key_view(key: Option<KeyRef<'_>>) -> Option<KeyView> {
    match key {
        Some(k) => Some(k@),
        None => None,
    }
}

/// The view of an optional batch.
pub open spec fn found_view(found: Option<OpsFound<'_>>) -> Option<FoundView> {
    match found {
        Some(f) => Some(f@),
        None => None,
    }
}

impl<'a, I: OpQueryTerm<'a>> OpsFoundIter<'a, I> {
    /// The clock that scopes the operations.
    pub closed spec fn clock(&self) -> Option<Seq<u64>> {
        owned_clock_view(self.clock)
    }

    /// The operations that the walk underneath has left.
    pub closed spec fn rest(&self) -> Seq<OpView> {
        self.iter.rest()
    }

    /// The batches that are still to come, the next one first.
    pub closed spec fn pending(&self) -> Seq<FoundView> {
        batches_from(
            self.iter.rest(),
            key_view(self.last_key),
            found_view(self.found),
            owned_clock_view(self.clock),
        )
    }

    /// Groups the operations of `iter`, scoped to `clock`.
    pub fn new(iter: I, clock: Option<Clock>) -> (it: Self)
        ensures
            it.clock() == owned_clock_view(clock),
            it.rest() == iter.rest(),
            it.pending() == batches_from(iter.rest(), None, None, owned_clock_view(clock)),
    {
        Self { iter, clock, found: None, last_key: None }
    }

    /// The next batch: the operations in scope of the next key that has
    /// any.
    pub fn next(&mut self) -> (r: Option<OpsFound<'a>>)
        requires
            rows_have_successors(old(self).rest()),
        ensures
            final(self).clock() == old(self).clock(),
            rows_have_successors(final(self).rest()),
            match r {
                Some(f) => old(self).pending().len() > 0 && f@ == old(self).pending()[0]
                    && final(self).pending() == old(self).pending().skip(1),
                None => old(self).pending().len() == 0 && final(self).pending().len() == 0
                    && final(self).rest().len() == 0,
            },
    {
        let ghost clock = owned_clock_view(self.clock);
        let ghost all = self.pending();
        loop
            invariant
                owned_clock_view(self.clock) == clock,
                clock == old(self).clock(),
                rows_have_successors(self.iter.rest()),
                all == old(self).pending(),
                all == batches_from(
                    self.iter.rest(),
                    key_view(self.last_key),
                    found_view(self.found),
                    clock,
                ),
            decreases self.iter.rest().len(),
        {
            let ghost before = self.iter.rest();
            let op = match self.iter.next_op() {
                Some(op) => op,
                None => {
                    let last = self.found.take();
                    return match last {
                        Some(f) => {
                            if f.ops.len() > 0 {
                                assert(all =~= seq![f@]);
                                assert(self.pending() =~= all.skip(1));
                                Some(f)
                            } else {
                                assert(self.pending() =~= all);
                                None
                            }
                        },
                        None => None,
                    };
                },
            };
            proof {
                assert(op@ == before[0]);
                assert forall|i: int| 0 <= i < self.iter.rest().len() implies (
                #[trigger] self.iter.rest()[i]).pos < usize::MAX by {
                    assert(before[i + 1].pos < usize::MAX);
                }
            }
            if matches!(op.action, Action::Increment) {
                continue;
            }
            let key = op.elemid_or_key();
            let same: bool = match &self.last_key {
                Some(last) => last.same(&key),
                None => false,
            };
            let mut result: Option<OpsFound<'a>> = None;
            if !same {
                result = self.found.take();
                self.last_key = Some(key);
                self.found = Some(OpsFound::new());
            }
            let in_scope: bool = op.scope_to_clock(self.clock.as_ref());
            let filling = self.found.take();
            self.found = match filling {
                Some(mut found) => {
                    found.end_pos = op.pos + 1;
                    if in_scope {
                        found.ops_pos.push(op.pos);
                        found.ops.push(op);
                    }
                    assert(found@.ops =~= filling.unwrap()@.absorb(op@, clock).ops);
                    Some(found)
                },
                None => None,
            };
            match result {
                Some(f) => {
                    if f.ops.len() > 0 {
                        assert(all =~= seq![f@] + self.pending());
                        assert(self.pending() =~= all.skip(1));
                        return Some(f);
                    }
                    assert(all =~= self.pending());
                },
                None => {},
            }
        }
    }
}

} // verus!
