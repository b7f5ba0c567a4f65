//! What holds of the grouping over a whole walk: the batches are the
//! maximal runs of one key, each cut down to what is in scope.

use crate::found_op::{batches_from, grouped, FoundView};
use crate::op::OpView;
use crate::types::KeyView;
use vstd::prelude::*;

verus! {

/// The test that an operation takes part in the grouping.
pub open spec fn is_grouped() -> spec_fn(OpView) -> bool {
    |op: OpView| grouped(op)
}

/// The test that an operation is in the scope of a clock.
pub open spec fn in_scope_of(clock: Option<Seq<u64>>) -> spec_fn(OpView) -> bool {
    |op: OpView| op.in_scope(clock)
}

/// The number of operations at the front of `s` that have the key `key`.
pub open spec fn run_len(s: Seq<OpView>, key: KeyView) -> nat
    decreases s.len(),
{
    if s.len() > 0 && s[0].elemid_or_key() == key {
        1 + run_len(s.skip(1), key)
    } else {
        0
    }
}

/// The batch of a run of operations of one key: the operations of the run
/// that are in scope, with their rows; it ends after the last operation of
/// the run, in scope or not.
pub open spec fn batch_of(run: Seq<OpView>, clock: Option<Seq<u64>>) -> FoundView {
    FoundView {
        ops_pos: run.filter(in_scope_of(clock)).map_values(|op: OpView| op.pos),
        ops: run.filter(in_scope_of(clock)),
        end_pos: if run.len() > 0 {
            (run.last().pos + 1) as usize
        } else {
            0
        },
    }
}

/// The batches of a sequence of operations: it is cut into the longest
/// runs of one key, the first run first, and each run that has an
/// operation in scope gives its batch.
pub open spec fn batches(s: Seq<OpView>, clock: Option<Seq<u64>>) -> Seq<FoundView>
    decreases s.len(),
{
    if s.len() == 0 {
        Seq::empty()
    } else {
        let n = run_len(s, s[0].elemid_or_key());
        if 1 <= n <= s.len() {
            batch_of(s.take(n as int), clock).emit() + batches(s.skip(n as int), clock)
        } else {
            Seq::empty()
        }
    }
}

/// The operations of a sequence of batches, one batch after the other.
pub open spec fn batch_ops(found: Seq<FoundView>) -> Seq<OpView>
    decreases found.len(),
{
    if found.len() == 0 {
        Seq::empty()
    } else {
        found[0].ops + batch_ops(found.skip(1))
    }
}

/// A run is as long as the key lasts: it is no longer than the sequence,
/// every operation in it has the key, and the operation after it, if there
/// is one, has another.
pub proof fn lemma_run_len(s: Seq<OpView>, key: KeyView)
    ensures
        run_len(s, key) <= s.len(),
        forall|i: int| 0 <= i < run_len(s, key) ==> (#[trigger] s[i]).elemid_or_key() == key,
        run_len(s, key) < s.len() ==> s[run_len(s, key) as int].elemid_or_key() != key,
        s.len() > 0 && s[0].elemid_or_key() == key ==> run_len(s, key) >= 1,
    decreases s.len(),
{
    if s.len() > 0 && s[0].elemid_or_key() == key {
        let tail = s.skip(1);
        lemma_run_len(tail, key);
        assert forall|i: int| 0 <= i < run_len(s, key) implies (#[trigger] s[i]).elemid_or_key()
            == key by {
            if i > 0 {
                assert(tail[i - 1] == s[i]);
            }
        }
        if run_len(s, key) < s.len() {
            assert(tail[run_len(tail, key) as int] == s[run_len(s, key) as int]);
        }
    }
}

/// What a batch holds after it has seen a run.
pub proof fn lemma_absorb_all(start: FoundView, run: Seq<OpView>, clock: Option<Seq<u64>>)
    ensures
        start.absorb_all(run, clock).ops == start.ops + run.filter(in_scope_of(clock)),
        start.absorb_all(run, clock).ops_pos == start.ops_pos + run.filter(
            in_scope_of(clock),
        ).map_values(|op: OpView| op.pos),
        start.absorb_all(run, clock).end_pos == if run.len() > 0 {
            (run.last().pos + 1) as usize
        } else {
            start.end_pos
        },
    decreases run.len(),
{
    let scope = in_scope_of(clock);
    let row = |op: OpView| op.pos;
    if run.len() == 0 {
        assert(run.filter(scope) =~= Seq::<OpView>::empty()) by {
            run.lemma_filter_len(scope);
        }
        assert(start.ops + run.filter(scope) =~= start.ops);
        assert(start.ops_pos + run.filter(scope).map_values(row) =~= start.ops_pos);
    } else {
        let next = start.absorb(run[0], clock);
        let tail = run.skip(1);
        lemma_absorb_all(next, tail, clock);
        assert(run =~= seq![run[0]] + tail);
        tail.lemma_filter_prepend(run[0], scope);
        if tail.len() > 0 {
            assert(tail.last() == run.last());
        }
        let kept_tail = tail.filter(scope);
        if scope(run[0]) {
            assert(run.filter(scope) =~= seq![run[0]] + kept_tail);
            assert(start.ops + run.filter(scope) =~= next.ops + kept_tail);
            assert(start.ops_pos + run.filter(scope).map_values(row) =~= next.ops_pos
                + kept_tail.map_values(row));
        } else {
            assert(run.filter(scope) =~= kept_tail);
        }
    }
}

/// A batch that starts empty and has seen a run is the batch of the run.
pub proof fn lemma_batch_of_run(run: Seq<OpView>, clock: Option<Seq<u64>>)
    requires
        run.len() > 0,
    ensures
        FoundView::empty().absorb_all(run, clock) == batch_of(run, clock),
{
    lemma_absorb_all(FoundView::empty(), run, clock);
    let scope = in_scope_of(clock);
    let seen = FoundView::empty().absorb_all(run, clock);
    assert(seen.ops =~= batch_of(run, clock).ops);
    assert(seen.ops_pos =~= batch_of(run, clock).ops_pos);
}

/// Increments take no part: the batches of a walk are those of the walk
/// without its increments.
pub proof fn lemma_increments_skipped(
    rest: Seq<OpView>,
    last_key: Option<KeyView>,
    found: Option<FoundView>,
    clock: Option<Seq<u64>>,
)
    ensures
        batches_from(rest, last_key, found, clock) == batches_from(
            rest.filter(is_grouped()),
            last_key,
            found,
            clock,
        ),
    decreases rest.len(),
{
    let keep = is_grouped();
    if rest.len() == 0 {
        rest.lemma_filter_len(keep);
        assert(rest.filter(keep) =~= rest);
    } else {
        let op = rest[0];
        let tail = rest.skip(1);
        assert(rest =~= seq![op] + tail);
        tail.lemma_filter_prepend(op, keep);
        if !grouped(op) {
            assert(rest.filter(keep) =~= tail.filter(keep));
            lemma_increments_skipped(tail, last_key, found, clock);
        } else {
            let kept = rest.filter(keep);
            assert(kept =~= seq![op] + tail.filter(keep));
            assert(kept[0] == op);
            assert(kept.skip(1) =~= tail.filter(keep));
            if last_key != Some(op.elemid_or_key()) {
                lemma_increments_skipped(
                    tail,
                    Some(op.elemid_or_key()),
                    Some(FoundView::empty().absorb(op, clock)),
                    clock,
                );
            } else {
                lemma_increments_skipped(
                    tail,
                    last_key,
                    match found {
                        Some(f) => Some(f.absorb(op, clock)),
                        None => None,
                    },
                    clock,
                );
            }
        }
    }
}

/// Whether every operation of `s` takes part in the grouping.
pub open spec fn all_grouped(s: Seq<OpView>) -> bool {
    forall|i: int| 0 <= i < s.len() ==> grouped(#[trigger] s[i])
}

/// From a state that fills a batch for `key`, the batch takes the rest of
/// the run of `key` and is handed out, and the batches of what follows the
/// run come after it.
pub proof fn lemma_batches_from_filling(
    rest: Seq<OpView>,
    key: KeyView,
    found: FoundView,
    clock: Option<Seq<u64>>,
)
    requires
        all_grouped(rest),
    ensures
        batches_from(rest, Some(key), Some(found), clock) == found.absorb_all(
            rest.take(run_len(rest, key) as int),
            clock,
        ).emit() + batches(rest.skip(run_len(rest, key) as int), clock),
    decreases rest.len(),
{
    let n = run_len(rest, key);
    lemma_run_len(rest, key);
    if rest.len() == 0 {
        assert(rest.take(0) =~= Seq::<OpView>::empty());
        assert(rest.skip(0) =~= rest);
        assert(found.emit() + Seq::<FoundView>::empty() =~= found.emit());
    } else {
        let op = rest[0];
        let tail = rest.skip(1);
        assert(grouped(op));
        assert forall|i: int| 0 <= i < tail.len() implies grouped(#[trigger] tail[i]) by {
            assert(tail[i] == rest[i + 1]);
        }
        if op.elemid_or_key() == key {
            let next = found.absorb(op, clock);
            lemma_batches_from_filling(tail, key, next, clock);
            let run = rest.take(n as int);
            assert(run[0] == op);
            assert(run.skip(1) =~= tail.take(run_len(tail, key) as int));
            assert(rest.skip(n as int) =~= tail.skip(run_len(tail, key) as int));
        } else {
            assert(n == 0);
            assert(rest.take(0) =~= Seq::<OpView>::empty());
            assert(rest.skip(0) =~= rest);
            let other = op.elemid_or_key();
            let fresh = FoundView::empty().absorb(op, clock);
            lemma_batches_from_filling(tail, other, fresh, clock);
            lemma_run_len(tail, other);
            let m = run_len(rest, other);
            assert(m == 1 + run_len(tail, other));
            let run = rest.take(m as int);
            assert(run[0] == op);
            assert(run.skip(1) =~= tail.take(run_len(tail, other) as int));
            assert(rest.skip(m as int) =~= tail.skip(run_len(tail, other) as int));
            lemma_batch_of_run(run, clock);
            assert(FoundView::empty().absorb_all(run, clock) == fresh.absorb_all(
                run.skip(1),
                clock,
            ));
        }
    }
}

/// From the start, the batches that are handed out are the batches of the
/// sequence.
pub proof fn lemma_batches_from_start(rest: Seq<OpView>, clock: Option<Seq<u64>>)
    requires
        all_grouped(rest),
    ensures
        batches_from(rest, None, None, clock) == batches(rest, clock),
{
    if rest.len() == 0 {
    } else {
        let op = rest[0];
        let tail = rest.skip(1);
        let key = op.elemid_or_key();
        let fresh = FoundView::empty().absorb(op, clock);
        assert(grouped(op));
        assert forall|i: int| 0 <= i < tail.len() implies grouped(#[trigger] tail[i]) by {
            assert(tail[i] == rest[i + 1]);
        }
        lemma_batches_from_filling(tail, key, fresh, clock);
        lemma_run_len(tail, key);
        lemma_run_len(rest, key);
        let m = run_len(rest, key);
        let run = rest.take(m as int);
        assert(run[0] == op);
        assert(run.skip(1) =~= tail.take(run_len(tail, key) as int));
        assert(rest.skip(m as int) =~= tail.skip(run_len(tail, key) as int));
        lemma_batch_of_run(run, clock);
        assert(FoundView::empty().absorb_all(run, clock) == fresh.absorb_all(run.skip(1), clock));
        assert(Seq::<FoundView>::empty() + batches_from(tail, Some(key), Some(fresh), clock)
            =~= batches_from(tail, Some(key), Some(fresh), clock));
    }
}

/// The operations of two sequences of batches, one after the other.
pub proof fn lemma_batch_ops_add(a: Seq<FoundView>, b: Seq<FoundView>)
    ensures
        batch_ops(a + b) == batch_ops(a) + batch_ops(b),
    decreases a.len(),
{
    if a.len() == 0 {
        assert(a + b =~= b);
        assert(batch_ops(a) + batch_ops(b) =~= batch_ops(b));
    } else {
        lemma_batch_ops_add(a.skip(1), b);
        assert((a + b).skip(1) =~= a.skip(1) + b);
        assert((a + b)[0] == a[0]);
        assert(batch_ops(a + b) =~= batch_ops(a) + batch_ops(b));
    }
}

/// The batches of a sequence hold, one after the other, the operations of
/// the sequence that are in scope, in their order.
pub proof fn lemma_batches_hold_scoped(s: Seq<OpView>, clock: Option<Seq<u64>>)
    ensures
        batch_ops(batches(s, clock)) == s.filter(in_scope_of(clock)),
    decreases s.len(),
{
    let scope = in_scope_of(clock);
    if s.len() == 0 {
        s.lemma_filter_len(scope);
        assert(s.filter(scope) =~= Seq::<OpView>::empty());
    } else {
        let key = s[0].elemid_or_key();
        let n = run_len(s, key);
        lemma_run_len(s, key);
        let run = s.take(n as int);
        let after = s.skip(n as int);
        lemma_batches_hold_scoped(after, clock);
        let first = batch_of(run, clock).emit();
        lemma_batch_ops_add(first, batches(after, clock));
        assert(batch_ops(first) =~= run.filter(scope)) by {
            if first.len() > 0 {
                assert(first.skip(1) =~= Seq::<FoundView>::empty());
                assert(batch_ops(first.skip(1)) =~= Seq::<OpView>::empty());
            }
        }
        assert(s =~= run + after);
        Seq::filter_distributes_over_add(run, after, scope);
    }
}

/// The grouping of a whole walk. The batches that are handed out from the
/// start of a walk over `ops` are the batches of `ops` without its
/// increments; and they hold, one after the other, the operations of `ops`
/// that are no increments and in the scope of the clock, in their order.
pub proof fn lemma_found_ops_grouping(ops: Seq<OpView>, clock: Option<Seq<u64>>)
    ensures
        batches_from(ops, None, None, clock) == batches(ops.filter(is_grouped()), clock),
        batch_ops(batches_from(ops, None, None, clock)) == ops.filter(is_grouped()).filter(
            in_scope_of(clock),
        ),
{
    let kept = ops.filter(is_grouped());
    lemma_increments_skipped(ops, None, None, clock);
    assert forall|i: int| 0 <= i < kept.len() implies grouped(#[trigger] kept[i]) by {
        ops.lemma_filter_pred(is_grouped(), i);
    }
    lemma_batches_from_start(kept, clock);
    lemma_batches_hold_scoped(kept, clock);
}

} // verus!
