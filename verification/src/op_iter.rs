//! Walks over the operations of a store, in the order of their rows.

use crate::op::{Clock, Op, OpView};
use vstd::prelude::*;

verus! {

/// The views of a sequence of operations.
pub open spec fn op_views<'a>(ops: Seq<Op<'a>>) -> Seq<OpView> {
    ops.map_values(|op: Op<'a>| op@)
}

/// A source of operations: what the queries on a store are made of.
pub trait OpQueryTerm<'a> {
    /// The operations that are still to come, the next one first.
    spec fn rest(&self) -> Seq<OpView>;

    /// The next operation, if one is left.
    fn next_op(&mut self) -> (r: Option<Op<'a>>)
        ensures
            match r {
                Some(op) => old(self).rest().len() > 0 && op@ == old(self).rest()[0]
                    && final(self).rest() == old(self).rest().skip(1),
                None => old(self).rest().len() == 0 && final(self).rest() == old(self).rest(),
            },
    ;
}

/// The operations of a store: one per row, each at the row that its
/// position names.
pub struct OpSet<'a> {
    ops: Vec<Op<'a>>,
}

impl<'a> View for OpSet<'a> {
    type V = Seq<OpView>;

    closed spec fn view(&self) -> Seq<OpView> {
        op_views(self.ops@)
    }
}

/// Whether the rows of all the operations leave room for the row after
/// them.
pub open spec fn rows_have_successors(ops: Seq<OpView>) -> bool {
    forall|i: int| 0 <= i < ops.len() ==> (#[trigger] ops[i]).pos < usize::MAX
}

/// Whether each operation stands at the row that its position names.
pub open spec fn rows_in_order(ops: Seq<OpView>) -> bool {
    forall|i: int| 0 <= i < ops.len() ==> (#[trigger] ops[i]).pos == i
}

impl<'a> OpSet<'a> {
    /// The store is well formed: each operation stands at the row that its
    /// position names.
    pub open spec fn wf(&self) -> bool {
        rows_in_order(self@)
    }

    /// A store without operations.
    pub fn new() -> (s: OpSet<'a>)
        ensures
            s@ == Seq::<OpView>::empty(),
            s.wf(),
    {
        let s = OpSet { ops: Vec::new() };
        assert(s@ =~= Seq::<OpView>::empty());
        s
    }

    /// The number of operations.
    pub fn len(&self) -> (n: usize)
        ensures
            n == self@.len(),
    {
        self.ops.len()
    }

    /// Appends an operation as the last row, with that row as its
    /// position; the row that was given is returned.
    pub fn push(&mut self, op: Op<'a>) -> (row: usize)
        requires
            old(self).wf(),
        ensures
            final(self).wf(),
            row == old(self)@.len(),
            final(self)@ == old(self)@.push((OpView { pos: row, ..op@ })),
    {
        let row: usize = self.ops.len();
        let placed = Op { pos: row, ..op };
        self.ops.push(placed);
        assert(self@ =~= old(self)@.push(placed@));
        row
    }

    /// The operation at the row `row`.
    pub fn get(&self, row: usize) -> (op: Option<Op<'a>>)
        ensures
            match op {
                Some(o) => row < self@.len() && o@ == self@[row as int],
                None => row >= self@.len(),
            },
    {
        if row < self.ops.len() {
            Some(self.ops[row])
        } else {
            None
        }
    }

    /// A walk over all the operations.
    pub fn iter<'b>(&'b self) -> (it: OpIter<'a, 'b>)
        ensures
            it.rest() == self@,
            self.wf() ==> rows_have_successors(it.rest()),
    {
        let it = OpIter { ops: self.ops.as_slice(), next: 0, end: self.ops.len() };
        assert(it.rest() =~= self@);
        it
    }

    /// A walk over the operations of the rows from `start` up to, and
    /// without, `end`; both are cut to the rows that there are.
    pub fn iter_range<'b>(&'b self, start: usize, end: usize) -> (it: OpIter<'a, 'b>)
        ensures
            it.rest() == self@.subrange(
                spec_clip(start, end, self@.len()).0,
                spec_clip(start, end, self@.len()).1,
            ),
            self.wf() ==> rows_have_successors(it.rest()),
    {
        let len: usize = self.ops.len();
        let end: usize = if end > len {
            len
        } else {
            end
        };
        let start: usize = if start > end {
            end
        } else {
            start
        };
        let it = OpIter { ops: self.ops.as_slice(), next: start, end };
        assert(it.rest() =~= self@.subrange(start as int, end as int));
        it
    }
}

/// A range of rows cut to the `len` rows that there are.
pub open spec fn spec_clip(start: usize, end: usize, len: nat) -> (int, int) {
    let e = if end > len {
        len as int
    } else {
        end as int
    };
    let s = if start > e {
        e
    } else {
        start as int
    };
    (s, e)
}

/// A walk over the rows of a store.
pub struct OpIter<'a, 'b> {
    ops: &'b [Op<'a>],
    next: usize,
    end: usize,
}

impl<'a, 'b> OpIter<'a, 'b> {
    #[verifier::type_invariant]
    spec fn in_bounds(self) -> bool {
        self.next <= self.end <= self.ops@.len()
    }
}

impl<'a, 'b> OpQueryTerm<'a> for OpIter<'a, 'b> {
    closed spec fn rest(&self) -> Seq<OpView> {
        op_views(self.ops@.subrange(self.next as int, self.end as int))
    }

    fn next_op(&mut self) -> (r: Option<Op<'a>>) {
        proof {
            use_type_invariant(&*self);
        }
        if self.next < self.end {
            let op = self.ops[self.next];
            self.next = self.next + 1;
            assert(self.rest() =~= old(self).rest().skip(1));
            Some(op)
        } else {
            None
        }
    }
}

/// The test that an operation is visible at a clock.
pub open spec fn visible_at_test(clock: Option<Seq<u64>>) -> spec_fn(OpView) -> bool {
    |op: OpView| op.visible_at(clock)
}

/// The view of an optional owned clock.
pub open spec fn owned_clock_view(clock: Option<Clock>) -> Option<Seq<u64>> {
    match clock {
        Some(c) => Some(c@),
        None => None,
    }
}

/// A walk over the operations of another walk that are visible at a clock.
pub struct VisibleOpIter<'a, I: OpQueryTerm<'a>> {
    iter: I,
    clock: Option<Clock>,
    marker: std::marker::PhantomData<&'a ()>,
}

impl<'a, I: OpQueryTerm<'a>> VisibleOpIter<'a, I> {
    /// The operations of `iter` that are visible at `clock`.
    pub fn new(iter: I, clock: Option<Clock>) -> (it: Self)
        ensures
            it.rest() == iter.rest().filter(visible_at_test(owned_clock_view(clock))),
            it.clock() == owned_clock_view(clock),
    {
        VisibleOpIter { iter, clock, marker: std::marker::PhantomData }
    }

    /// The clock at which the operations are visible.
    pub closed spec fn clock(&self) -> Option<Seq<u64>> {
        owned_clock_view(self.clock)
    }
}

impl<'a, I: OpQueryTerm<'a>> OpQueryTerm<'a> for VisibleOpIter<'a, I> {
    closed spec fn rest(&self) -> Seq<OpView> {
        self.iter.rest().filter(visible_at_test(owned_clock_view(self.clock)))
    }

    fn next_op(&mut self) -> (r: Option<Op<'a>>) {
        let ghost test = visible_at_test(owned_clock_view(self.clock));
        loop
            invariant
                test == visible_at_test(owned_clock_view(self.clock)),
                self.iter.rest().filter(test) == old(self).rest(),
            decreases self.iter.rest().len(),
        {
            let ghost before = self.iter.rest();
            match self.iter.next_op() {
                Some(op) => {
                    proof {
                        let after = self.iter.rest();
                        assert(before =~= seq![op@] + after);
                        after.lemma_filter_prepend(op@, test);
                    }
                    if op.visible_at(self.clock.as_ref()) {
                        proof {
                            let after = self.iter.rest();
                            assert(old(self).rest() =~= seq![op@] + after.filter(test));
                            assert(old(self).rest().skip(1) =~= after.filter(test));
                        }
                        return Some(op);
                    }
                    proof {
                        let after = self.iter.rest();
                        assert(Seq::<OpView>::empty() + after.filter(test) =~= after.filter(test));
                    }
                },
                None => {
                    proof {
                        before.lemma_filter_len(test);
                    }
                    return None;
                },
            }
        }
    }
}

/// What a walk over the last operation of each run of one key still hands
/// out: `rest` is what the walk underneath has left, and `held` the last
/// operation seen of the run that is being passed.
pub open spec fn tops_from(rest: Seq<OpView>, held: Option<OpView>) -> Seq<OpView>
    decreases rest.len(),
{
    if rest.len() == 0 {
        match held {
            Some(h) => seq![h],
            None => Seq::empty(),
        }
    } else {
        let op = rest[0];
        match held {
            Some(h) if h.elemid_or_key() != op.elemid_or_key() => seq![h] + tops_from(
                rest.skip(1),
                Some(op),
            ),
            _ => tops_from(rest.skip(1), Some(op)),
        }
    }
}

/// The view of an optional operation.
pub open spec fn held_view(held: Option<Op<'_>>) -> Option<OpView> {
    match held {
        Some(h) => Some(h@),
        None => None,
    }
}

/// A walk over the winners: of the operations of another walk that are
/// visible at a clock, the last one of each run of one key.
pub struct TopOpIter<'a, I: OpQueryTerm<'a>> {
    iter: VisibleOpIter<'a, I>,
    held: Option<Op<'a>>,
}

impl<'a, I: OpQueryTerm<'a>> TopOpIter<'a, I> {
    /// The winners among the operations of `iter` at `clock`.
    pub fn new(iter: I, clock: Option<Clock>) -> (it: Self)
        ensures
            it.rest() == tops_from(
                iter.rest().filter(visible_at_test(owned_clock_view(clock))),
                None,
            ),
    {
        TopOpIter { iter: VisibleOpIter::new(iter, clock), held: None }
    }
}

impl<'a, I: OpQueryTerm<'a>> OpQueryTerm<'a> for TopOpIter<'a, I> {
    closed spec fn rest(&self) -> Seq<OpView> {
        tops_from(self.iter.rest(), held_view(self.held))
    }

    fn next_op(&mut self) -> (r: Option<Op<'a>>) {
        loop
            invariant
                tops_from(self.iter.rest(), held_view(self.held)) == old(self).rest(),
            decreases self.iter.rest().len(),
        {
            match self.iter.next_op() {
                Some(op) => {
                    let passed = self.held;
                    self.held = Some(op);
                    match passed {
                        Some(h) => {
                            if !h.elemid_or_key().same(&op.elemid_or_key()) {
                                assert(old(self).rest() =~= seq![h@] + self.rest());
                                assert(old(self).rest().skip(1) =~= self.rest());
                                return Some(h);
                            }
                        },
                        None => {},
                    }
                },
                None => {
                    let last = self.held;
                    self.held = None;
                    proof {
                        if last is Some {
                            assert(old(self).rest().skip(1) =~= self.rest());
                        }
                    }
                    return last;
                },
            }
        }
    }
}

/// How the visibility of an operation changes from one clock to another.
#[derive(Debug, Clone, Copy, PartialEq, Eq, Structural)]
pub enum Transition {
    /// Invisible before, visible after.
    Appeared,
    /// Visible before, invisible after.
    Vanished,
}

/// An operation whose visibility differs between two clocks.
#[derive(Debug, Clone, Copy)]
pub struct DiffOp<'a> {
    pub op: Op<'a>,
    pub transition: Transition,
}

impl<'a> DiffOp<'a> {
    /// The change of the visibility of `op` from the clock `before` to the
    /// clock `after`, if there is one.
    pub fn between(op: Op<'a>, before: Option<&Clock>, after: Option<&Clock>) -> (d: Option<
        DiffOp<'a>,
    >)
        ensures
            match d {
                Some(diff) => diff.op == op && diff.transition == if op@.visible_at(
                    crate::op::clock_view(after),
                ) {
                    Transition::Appeared
                } else {
                    Transition::Vanished
                },
                None => true,
            },
            d is None <==> (op@.visible_at(crate::op::clock_view(before)) == op@.visible_at(
                crate::op::clock_view(after),
            )),
    {
        let seen_before: bool = op.visible_at(before);
        let seen_after: bool = op.visible_at(after);
        if !seen_before && seen_after {
            Some(DiffOp { op, transition: Transition::Appeared })
        } else if seen_before && !seen_after {
            Some(DiffOp { op, transition: Transition::Vanished })
        } else {
            None
        }
    }
}

} // verus!
