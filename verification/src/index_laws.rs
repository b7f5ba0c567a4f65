//! What holds of the index over whole sequences of operations.

use crate::ids::OpId;
use crate::index::{other_than, IndexView};
use crate::op::OpView;
use crate::types::{KeyView, MarkDataView};
use vstd::prelude::*;

verus! {

/// The index after the operations of `ops` are inserted into `start`, the
/// first one first.
pub open spec fn insert_all(start: IndexView, ops: Seq<OpView>) -> IndexView
    decreases ops.len(),
{
    if ops.len() == 0 {
        start
    } else {
        insert_all(start, ops.drop_last()).insert(ops.last())
    }
}

/// The index after the operations of `ops` are removed from `start`, the
/// last one first.
pub open spec fn remove_all_rev(start: IndexView, ops: Seq<OpView>) -> IndexView
    decreases ops.len(),
{
    if ops.len() == 0 {
        start
    } else {
        remove_all_rev(start.remove(ops.last()), ops.drop_last())
    }
}

/// Whether each removal of [`remove_all_rev`] finds a count to take from:
/// whether `remove` may be called at every step.
pub open spec fn removable_rev(start: IndexView, ops: Seq<OpView>) -> bool
    decreases ops.len(),
{
    if ops.len() == 0 {
        true
    } else {
        (ops.last().visible() ==> start.can_sub_visible(ops.last())) && removable_rev(
            start.remove(ops.last()),
            ops.drop_last(),
        )
    }
}

/// Whether every insertion of [`insert_all`] keeps its counts within the
/// machine's `usize`: whether `insert` may be called at every step.
pub open spec fn insertable(start: IndexView, ops: Seq<OpView>) -> bool
    decreases ops.len(),
{
    if ops.len() == 0 {
        true
    } else {
        insertable(start, ops.drop_last()) && (ops.last().visible() ==> insert_all(
            start,
            ops.drop_last(),
        ).can_add_visible(ops.last()))
    }
}

/// The index built from nothing by inserting the operations of `ops`.
pub open spec fn built(ops: Seq<OpView>) -> IndexView {
    insert_all(IndexView::new(), ops)
}

/// Whether `id` is the identifier of one of the operations.
pub open spec fn is_id_of(ops: Seq<OpView>, id: OpId) -> bool {
    exists|i: int| 0 <= i < ops.len() && (#[trigger] ops[i]).id == id
}

/// Whether `id` is the identifier of one of the operations that open a
/// mark.
pub open spec fn is_begin_of(ops: Seq<OpView>, id: OpId) -> bool {
    exists|i: int| 0 <= i < ops.len() && (#[trigger] ops[i]).id == id && ops[i].is_mark_begin()
}

/// Whether `id` is the identifier of one of the operations that close a
/// mark.
pub open spec fn is_end_of(ops: Seq<OpView>, id: OpId) -> bool {
    exists|i: int| 0 <= i < ops.len() && (#[trigger] ops[i]).id == id && ops[i].is_mark_end()
}

/// Whether every one of the operations inserts an element.
pub open spec fn all_insert(ops: Seq<OpView>) -> bool {
    forall|i: int| 0 <= i < ops.len() ==> (#[trigger] ops[i]).insert
}

/// Whether what an index holds came from the operations of `ops`: its
/// identifiers are theirs, its open marks were opened by them, and its
/// unpaired closing operations are among them.
pub open spec fn held_from(index: IndexView, ops: Seq<OpView>) -> bool {
    &&& forall|id: OpId| #[trigger] index.ops.contains(id) ==> is_id_of(ops, id)
    &&& forall|id: OpId| #[trigger] index.mark_begin.contains_key(id) ==> is_begin_of(ops, id)
    &&& forall|j: int| 0 <= j < index.mark_end.len() ==> is_end_of(ops, #[trigger] index.mark_end[j])
}

proof fn lemma_member_of_longer(ops: Seq<OpView>, id: OpId)
    requires
        ops.len() > 0,
    ensures
        is_id_of(ops.drop_last(), id) ==> is_id_of(ops, id),
        is_begin_of(ops.drop_last(), id) ==> is_begin_of(ops, id),
        is_end_of(ops.drop_last(), id) ==> is_end_of(ops, id),
        is_id_of(ops, id) ==> is_id_of(ops.drop_last(), id) || id == ops.last().id,
        is_begin_of(ops, id) ==> is_begin_of(ops.drop_last(), id) || (id == ops.last().id
            && ops.last().is_mark_begin()),
        is_end_of(ops, id) ==> is_end_of(ops.drop_last(), id) || (id == ops.last().id
            && ops.last().is_mark_end()),
        is_id_of(ops, ops.last().id),
        ops.last().is_mark_begin() ==> is_begin_of(ops, ops.last().id),
        ops.last().is_mark_end() ==> is_end_of(ops, ops.last().id),
{
    let shorter = ops.drop_last();
    let n = shorter.len() as int;
    assert(ops[n] == ops.last());
    if is_id_of(shorter, id) {
        let i = choose|i: int| 0 <= i < shorter.len() && (#[trigger] shorter[i]).id == id;
        assert(ops[i].id == id);
    }
    if is_begin_of(shorter, id) {
        let i = choose|i: int|
            0 <= i < shorter.len() && (#[trigger] shorter[i]).id == id
                && shorter[i].is_mark_begin();
        assert(ops[i].id == id && ops[i].is_mark_begin());
    }
    if is_end_of(shorter, id) {
        let i = choose|i: int|
            0 <= i < shorter.len() && (#[trigger] shorter[i]).id == id && shorter[i].is_mark_end();
        assert(ops[i].id == id && ops[i].is_mark_end());
    }
    if is_id_of(ops, id) {
        let i = choose|i: int| 0 <= i < ops.len() && (#[trigger] ops[i]).id == id;
        if i < n {
            assert(shorter[i].id == id);
        }
    }
    if is_begin_of(ops, id) {
        let i = choose|i: int|
            0 <= i < ops.len() && (#[trigger] ops[i]).id == id && ops[i].is_mark_begin();
        if i < n {
            assert(shorter[i].id == id && shorter[i].is_mark_begin());
        }
    }
    if is_end_of(ops, id) {
        let i = choose|i: int|
            0 <= i < ops.len() && (#[trigger] ops[i]).id == id && ops[i].is_mark_end();
        if i < n {
            assert(shorter[i].id == id && shorter[i].is_mark_end());
        }
    }
}

/// An index built by inserting counts no key with zero, holds only what
/// came from the operations inserted, and has seen no put exactly when
/// every one of them inserts an element.
pub proof fn lemma_built(ops: Seq<OpView>)
    ensures
        built(ops).counts_positive(),
        held_from(built(ops), ops),
        built(ops).never_seen_puts == all_insert(ops),
    decreases ops.len(),
{
    if ops.len() == 0 {
    } else {
        let shorter = ops.drop_last();
        let op = ops.last();
        let before = built(shorter);
        let after = built(ops);
        lemma_built(shorter);
        assert(after == before.insert(op));
        assert forall|id: OpId| #[trigger] after.ops.contains(id) implies is_id_of(ops, id) by {
            lemma_member_of_longer(ops, id);
        }
        assert forall|id: OpId| #[trigger] after.mark_begin.contains_key(id) implies is_begin_of(
            ops,
            id,
        ) by {
            lemma_member_of_longer(ops, id);
        }
        assert forall|j: int| 0 <= j < after.mark_end.len() implies is_end_of(
            ops,
            #[trigger] after.mark_end[j],
        ) by {
            lemma_member_of_longer(ops, after.mark_end[j]);
            if j < before.mark_end.len() {
                assert(after.mark_end[j] == before.mark_end[j]);
            }
        }
        if all_insert(shorter) && op.insert {
            assert forall|i: int| 0 <= i < ops.len() implies (#[trigger] ops[i]).insert by {
                if i < shorter.len() {
                    assert(shorter[i].insert);
                }
            }
        }
        if all_insert(ops) {
            assert(ops[ops.len() - 1].insert);
            assert forall|i: int| 0 <= i < shorter.len() implies (#[trigger] shorter[i]).insert by {
                assert(ops[i].insert);
            }
        }
    }
}

/// Removing an operation just after inserting it leaves the counts and the
/// width as they were.
pub proof fn lemma_insert_then_remove_counts(index: IndexView, op: OpView)
    requires
        index.counts_positive(),
    ensures
        index.insert(op).remove(op).visible == index.visible,
        index.insert(op).remove(op).width == index.width,
        op.visible() ==> index.insert(op).can_sub_visible(op),
{
    let back = index.insert(op).remove(op);
    if op.visible() {
        let key = op.elemid_or_key();
        if index.visible.contains_key(key) {
            assert(index.visible[key] >= 1);
        }
        assert(back.visible =~= index.visible);
    }
}

proof fn lemma_remove_all(start: IndexView, ops: Seq<OpView>)
    requires
        start.visible == built(ops).visible,
        start.width == built(ops).width,
        held_from(start, ops),
    ensures
        removable_rev(start, ops),
        remove_all_rev(start, ops) == (IndexView {
            never_seen_puts: start.never_seen_puts,
            ..IndexView::new()
        }),
    decreases ops.len(),
{
    if ops.len() == 0 {
        let end = remove_all_rev(start, ops);
        assert(end.ops =~= Set::<OpId>::empty()) by {
            assert forall|id: OpId| !start.ops.contains(id) by {
                if start.ops.contains(id) {
                    assert(is_id_of(ops, id));
                }
            }
        }
        assert(end.mark_begin =~= Map::<OpId, MarkDataView>::empty()) by {
            assert forall|id: OpId| !start.mark_begin.contains_key(id) by {
                if start.mark_begin.contains_key(id) {
                    assert(is_begin_of(ops, id));
                }
            }
        }
        assert(end.mark_end =~= Seq::<OpId>::empty()) by {
            if start.mark_end.len() > 0 {
                assert(is_end_of(ops, start.mark_end[0]));
            }
        }
        assert(end.visible =~= Map::<KeyView, nat>::empty());
    } else {
        let shorter = ops.drop_last();
        let op = ops.last();
        let before = built(shorter);
        lemma_built(shorter);
        lemma_insert_then_remove_counts(before, op);
        let next = start.remove(op);
        assert(built(ops) == before.insert(op));
        assert(next.visible == before.insert(op).remove(op).visible);
        assert(next.width == before.insert(op).remove(op).width);
        assert forall|id: OpId| #[trigger] next.ops.contains(id) implies is_id_of(shorter, id) by {
            lemma_member_of_longer(ops, id);
        }
        assert forall|id: OpId| #[trigger] next.mark_begin.contains_key(id) implies is_begin_of(
            shorter,
            id,
        ) by {
            lemma_member_of_longer(ops, id);
        }
        assert forall|j: int| 0 <= j < next.mark_end.len() implies is_end_of(
            shorter,
            #[trigger] next.mark_end[j],
        ) by {
            let id = next.mark_end[j];
            lemma_member_of_longer(ops, id);
            if op.is_mark_end() {
                let keep = other_than(op.id);
                start.mark_end.lemma_filter_pred(keep, j);
                assert(start.mark_end.filter(keep).contains(id));
                start.mark_end.lemma_filter_contains_rev(keep, id);
                let i = choose|i: int| 0 <= i < start.mark_end.len() && start.mark_end[i] == id;
                assert(is_end_of(ops, start.mark_end[i]));
            } else {
                assert(is_end_of(ops, start.mark_end[j]));
            }
        }
        lemma_remove_all(next, shorter);
    }
}

/// Insert and remove are inverse over a whole sequence. When the
/// operations of `ops` are inserted into an empty index and then removed
/// again, the last one first, every removal finds what it takes away, and
/// the index that is left holds nothing: no key, no width, no identifier
/// and no mark. Only its flag stays as the insertions left it, set exactly
/// when every operation inserts an element; no removal sets it again.
pub proof fn lemma_insert_remove_inverse(ops: Seq<OpView>)
    ensures
        removable_rev(built(ops), ops),
        remove_all_rev(built(ops), ops) == (IndexView {
            never_seen_puts: all_insert(ops),
            ..IndexView::new()
        }),
        all_insert(ops) ==> remove_all_rev(built(ops), ops) == IndexView::new(),
{
    lemma_built(ops);
    lemma_remove_all(built(ops), ops);
}

/// The flag after any insertions. Whatever the operations do and whether
/// they are visible: after they are inserted the flag is set exactly when it
/// was set before and every one of them inserts an element.
pub proof fn lemma_flag_after_inserts(start: IndexView, ops: Seq<OpView>)
    ensures
        insert_all(start, ops).never_seen_puts == (start.never_seen_puts && all_insert(ops)),
    decreases ops.len(),
{
    if ops.len() > 0 {
        let shorter = ops.drop_last();
        lemma_flag_after_inserts(start, shorter);
        if all_insert(shorter) && ops.last().insert {
            assert forall|i: int| 0 <= i < ops.len() implies (#[trigger] ops[i]).insert by {
                if i < shorter.len() {
                    assert(shorter[i].insert);
                }
            }
        }
        if all_insert(ops) {
            assert(ops[ops.len() - 1].insert);
            assert forall|i: int| 0 <= i < shorter.len() implies (#[trigger] shorter[i]).insert by {
                assert(ops[i].insert);
            }
        }
    }
}

/// The flag of an index that was built by inserting is set exactly when
/// every operation inserted an element: it is set for no operations, it is
/// set after the first `n` operations exactly when each of those inserts an
/// element, and so it is unset from the first operation on that does not.
/// The flag of a merged index is set exactly when the flags of both are.
pub proof fn lemma_never_seen_puts(ops: Seq<OpView>, others: Seq<OpView>)
    ensures
        built(Seq::<OpView>::empty()).never_seen_puts,
        built(ops).never_seen_puts <==> all_insert(ops),
        forall|n: int|
            0 <= n <= ops.len() ==> (#[trigger] built(ops.take(n)).never_seen_puts <==> all_insert(
                ops.take(n),
            )),
        forall|i: int, n: int|
            #![trigger ops[i], built(ops.take(n))]
            0 <= i < n <= ops.len() && !ops[i].insert ==> !built(ops.take(n)).never_seen_puts,
        built(ops).merge(built(others)).never_seen_puts <==> all_insert(ops) && all_insert(others),
{
    lemma_flag_after_inserts(IndexView::new(), ops);
    lemma_flag_after_inserts(IndexView::new(), others);
    lemma_flag_after_inserts(IndexView::new(), Seq::<OpView>::empty());
    assert forall|n: int| 0 <= n <= ops.len() implies (#[trigger] built(
        ops.take(n),
    ).never_seen_puts <==> all_insert(ops.take(n))) by {
        lemma_flag_after_inserts(IndexView::new(), ops.take(n));
    }
    assert forall|i: int, n: int|
        #![trigger ops[i], built(ops.take(n))]
        0 <= i < n <= ops.len() && !ops[i].insert implies !built(ops.take(n)).never_seen_puts by {
        lemma_flag_after_inserts(IndexView::new(), ops.take(n));
        assert(ops.take(n)[i] == ops[i]);
    }
}

/// Merging with the index of nothing changes nothing, on either side.
pub proof fn lemma_merge_empty(index: IndexView)
    ensures
        index.merge(IndexView::new()) == index,
        IndexView::new().merge(index) == index,
{
    let right = index.merge(IndexView::new());
    let left = IndexView::new().merge(index);
    assert(right.visible =~= index.visible);
    assert(right.ops =~= index.ops);
    assert(right.mark_begin =~= index.mark_begin);
    assert(right.mark_end =~= index.mark_end);
    assert(left.visible =~= index.visible);
    assert(left.ops =~= index.ops);
    assert(left.mark_begin =~= index.mark_begin);
    assert(left.mark_end =~= index.mark_end);
}

/// Merging commutes. Whichever of two indices takes the other in, the
/// counts (the sums, key by key), the width (the sum), the identifiers (the
/// union) and the flag (set when both are) come out the same, and the
/// unpaired closing operations are the same ones, each as often, in another
/// order. The open marks are the same too where no mark is open in both;
/// where one is, each merge keeps the mark of the index taken in.
pub proof fn lemma_merge_commutes(a: IndexView, b: IndexView)
    ensures
        a.merge(b).visible == b.merge(a).visible,
        forall|k: KeyView| #[trigger]
            a.merge(b).visible.contains_key(k) <==> a.visible.contains_key(k)
                || b.visible.contains_key(k),
        forall|k: KeyView|
            a.merge(b).visible.contains_key(k) ==> #[trigger] a.merge(b).visible[k]
                == crate::index::count_of(a.visible, k) + crate::index::count_of(b.visible, k),
        a.merge(b).width == b.merge(a).width,
        a.merge(b).width == a.width + b.width,
        a.merge(b).ops == b.merge(a).ops,
        a.merge(b).ops == a.ops.union(b.ops),
        a.merge(b).never_seen_puts == b.merge(a).never_seen_puts,
        a.merge(b).never_seen_puts == (a.never_seen_puts && b.never_seen_puts),
        a.merge(b).mark_end.to_multiset() == b.merge(a).mark_end.to_multiset(),
        a.mark_begin.dom().disjoint(b.mark_begin.dom()) ==> a.merge(b).mark_begin == b.merge(
            a,
        ).mark_begin,
        a.mark_begin.dom().disjoint(b.mark_begin.dom()) && a.mark_end == b.mark_end ==> a.merge(b)
            == b.merge(a),
{
    let ab = a.merge(b);
    let ba = b.merge(a);
    assert(ab.visible =~= ba.visible);
    assert(ab.ops =~= ba.ops);
    vstd::seq_lib::lemma_seq_union_to_multiset_commutative(a.mark_end, b.mark_end);
    if a.mark_begin.dom().disjoint(b.mark_begin.dom()) {
        assert(ab.mark_begin =~= ba.mark_begin);
    }
}

/// Merging is associative: three indices merged give the same index
/// however they are paired.
pub proof fn lemma_merge_associative(a: IndexView, b: IndexView, c: IndexView)
    ensures
        a.merge(b).merge(c) == a.merge(b.merge(c)),
{
    let left = a.merge(b).merge(c);
    let right = a.merge(b.merge(c));
    assert(left.visible =~= right.visible);
    assert(left.ops =~= right.ops);
    assert(left.mark_begin =~= right.mark_begin);
    assert(left.mark_end =~= right.mark_end);
}

/// Whether the operations of `later` can be indexed apart from the index
/// `first` and merged into it: none of them is visible at a key that is
/// visible in `first`, and none of them closes a mark that is open in
/// `first`.
pub open spec fn apart_from(first: IndexView, later: Seq<OpView>) -> bool {
    forall|i: int|
        0 <= i < later.len() ==> {
            &&& (#[trigger] later[i]).visible() ==> !first.visible.contains_key(
                later[i].elemid_or_key(),
            )
            &&& !first.closes_open_mark(later[i])
        }
}

/// Inserting into the second of two merged indices is inserting into the
/// merged one, for an operation that is apart from the first.
pub proof fn lemma_insert_into_merged(first: IndexView, second: IndexView, op: OpView)
    requires
        op.visible() ==> !first.visible.contains_key(op.elemid_or_key()),
        !first.closes_open_mark(op),
    ensures
        first.merge(second).insert(op) == first.merge(second.insert(op)),
{
    let left = first.merge(second).insert(op);
    let right = first.merge(second.insert(op));
    assert(left.ops =~= right.ops);
    assert(left.mark_begin =~= right.mark_begin);
    assert(left.mark_end =~= right.mark_end);
    assert(left.visible =~= right.visible);
}

/// Merging is building from both. For two sequences of operations of
/// which the second is apart from the index of the first, the index built
/// from the first followed by the second is the merge of the two indices
/// built separately.
pub proof fn lemma_merge_of_built(first: Seq<OpView>, second: Seq<OpView>)
    requires
        apart_from(built(first), second),
    ensures
        built(first).merge(built(second)) == built(first + second),
    decreases second.len(),
{
    let whole = first + second;
    if second.len() == 0 {
        assert(whole =~= first);
        let merged = built(first).merge(built(second));
        assert(merged.visible =~= built(first).visible);
        assert(merged.ops =~= built(first).ops);
        assert(merged.mark_begin =~= built(first).mark_begin);
        assert(merged.mark_end =~= built(first).mark_end);
    } else {
        let shorter = second.drop_last();
        let op = second.last();
        assert(whole.drop_last() =~= first + shorter);
        assert(whole.last() == op);
        assert forall|i: int| 0 <= i < shorter.len() implies {
            &&& (#[trigger] shorter[i]).visible() ==> !built(first).visible.contains_key(
                shorter[i].elemid_or_key(),
            )
            &&& !built(first).closes_open_mark(shorter[i])
        } by {
            assert(shorter[i] == second[i]);
        }
        lemma_merge_of_built(first, shorter);
        assert(second[second.len() - 1] == op);
        lemma_insert_into_merged(built(first), built(shorter), op);
    }
}

} // verus!
