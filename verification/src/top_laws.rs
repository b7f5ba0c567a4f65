//! What holds of the walk over the winners: it hands out the last
//! operation of each of the longest runs of one key.

use crate::found_laws::{lemma_run_len, run_len};
use crate::op::OpView;
use crate::op_iter::tops_from;
use vstd::prelude::*;

verus! {

/// The winners of a sequence of operations: it is cut into the longest
/// runs of one key, and each run gives its last operation.
pub open spec fn tops(s: Seq<OpView>) -> Seq<OpView>
    decreases s.len(),
{
    if s.len() == 0 {
        Seq::empty()
    } else {
        let n = run_len(s, s[0].elemid_or_key());
        if 1 <= n <= s.len() {
            seq![s[n - 1]] + tops(s.skip(n as int))
        } else {
            Seq::empty()
        }
    }
}

/// The last operation of the run that `held` belongs to, when `rest`
/// follows it.
pub open spec fn winner(rest: Seq<OpView>, held: OpView) -> OpView {
    let n = run_len(rest, held.elemid_or_key());
    if n == 0 {
        held
    } else {
        rest[n - 1]
    }
}

/// While a run is being passed, what is still handed out is the winner of
/// that run and then the winners of what follows the run.
pub proof fn lemma_tops_from_held(rest: Seq<OpView>, held: OpView)
    ensures
        tops_from(rest, Some(held)) == seq![winner(rest, held)] + tops(
            rest.skip(run_len(rest, held.elemid_or_key()) as int),
        ),
    decreases rest.len(),
{
    let key = held.elemid_or_key();
    let n = run_len(rest, key);
    lemma_run_len(rest, key);
    if rest.len() == 0 {
        assert(rest.skip(0) =~= rest);
        assert(seq![held] + Seq::<OpView>::empty() =~= seq![held]);
    } else {
        let op = rest[0];
        let tail = rest.skip(1);
        lemma_tops_from_held(tail, op);
        let m = run_len(tail, op.elemid_or_key());
        lemma_run_len(tail, op.elemid_or_key());
        if op.elemid_or_key() == key {
            assert(n == 1 + m);
            assert(tail.skip(m as int) =~= rest.skip(n as int));
            if m > 0 {
                assert(tail[m - 1] == rest[n - 1]);
            }
        } else {
            assert(n == 0);
            assert(rest.skip(0) =~= rest);
            let whole = run_len(rest, op.elemid_or_key());
            lemma_run_len(rest, op.elemid_or_key());
            assert(whole == 1 + m);
            assert(tail.skip(m as int) =~= rest.skip(whole as int));
            if m > 0 {
                assert(tail[m - 1] == rest[whole - 1]);
            }
        }
    }
}

/// From its start, the walk hands out the winners of the sequence.
pub proof fn lemma_tops_from_start(s: Seq<OpView>)
    ensures
        tops_from(s, None) == tops(s),
{
    if s.len() > 0 {
        let op = s[0];
        let tail = s.skip(1);
        lemma_tops_from_held(tail, op);
        let m = run_len(tail, op.elemid_or_key());
        lemma_run_len(tail, op.elemid_or_key());
        lemma_run_len(s, op.elemid_or_key());
        let whole = run_len(s, op.elemid_or_key());
        assert(whole == 1 + m);
        assert(tail.skip(m as int) =~= s.skip(whole as int));
        if m > 0 {
            assert(tail[m - 1] == s[whole - 1]);
        }
    }
}

} // verus!
