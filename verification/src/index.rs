//! The visibility index of one node of the operation tree: what is visible
//! among the operations below the node, and the marks that are open there.

use crate::fx::{
    id_set, id_set_clone, id_set_contains, id_set_insert, id_set_items, id_set_len, id_set_new,
    id_set_remove, key_counts, key_counts_clone, key_counts_contains, key_counts_entries,
    key_counts_get, key_counts_insert, key_counts_len, key_counts_new, key_counts_remove,
    mark_map, mark_map_clone, mark_map_contains, mark_map_extend, mark_map_ids, mark_map_insert,
    mark_map_len, mark_map_new, mark_map_remove,
};
use crate::ids::OpId;
use crate::index_laws::{all_insert, built, insertable, lemma_flag_after_inserts};
use crate::op::{ListEncoding, Op, OpView};
use crate::op_iter::OpSet;
use crate::owned::OwnedMarkData;
use crate::types::{Key, KeyView, MarkDataView};
use fxhash::FxBuildHasher;
use std::collections::{HashMap, HashSet};
use vstd::prelude::*;

verus! {

/// A change of the visibility of one operation, as it is passed up the
/// tree.
#[derive(Debug, Clone, Copy)]
pub struct ChangeVisibility<'a> {
    pub old_vis: bool,
    pub new_vis: bool,
    pub op: &'a Op<'a>,
}

/// The summed width of the visible text below a node.
#[derive(Debug, Clone, PartialEq, Eq)]
pub struct TextWidth {
    pub width: usize,
}

impl TextWidth {
    /// Adds the width that `op` has in a text.
    pub fn add_op(&mut self, op: &Op<'_>)
        requires
            old(self).width + op@.width(ListEncoding::Text) <= usize::MAX,
        ensures
            final(self).width == old(self).width + op@.width(ListEncoding::Text),
    {
        self.width = self.width + op.width(ListEncoding::Text);
    }

    /// Takes away the width that `op` has in a text, stopping at zero:
    /// among conflicting elements of a list that is no text, only the first
    /// one seen was added, and another one may be taken away.
    pub fn remove_op(&mut self, op: &Op<'_>)
        ensures
            final(self).width == sub_or_zero(
                old(self).width as nat,
                op@.width(ListEncoding::Text),
            ),
    {
        self.width = self.width.saturating_sub(op.width(ListEncoding::Text));
    }

    /// Adds the width of another node.
    pub fn merge(&mut self, other: &TextWidth)
        requires
            old(self).width + other.width <= usize::MAX,
        ensures
            final(self).width == old(self).width + other.width,
    {
        self.width = self.width + other.width;
    }
}

/// The test that an identifier is not `id`.
pub open spec fn other_than(id: OpId) -> spec_fn(OpId) -> bool {
    |other: OpId| other != id
}

/// `a - b`, or zero where `b` is the greater.
pub open spec fn sub_or_zero(a: nat, b: nat) -> nat {
    if a >= b {
        (a - b) as nat
    } else {
        0
    }
}

/// The count that a map of counts holds for a key, zero where it holds
/// none.
pub open spec fn count_of(counts: Map<KeyView, nat>, key: KeyView) -> nat {
    if counts.contains_key(key) {
        counts[key]
    } else {
        0
    }
}

/// The index as a mathematical object.
pub struct IndexView {
    /// For each key with a visible operation, the number of its visible
    /// operations.
    pub visible: Map<KeyView, nat>,
    /// The summed text width of the first operation that became visible at
    /// each key.
    pub width: nat,
    /// The identifiers of the operations.
    pub ops: Set<OpId>,
    /// Whether every operation seen so far inserted an element.
    pub never_seen_puts: bool,
    /// The marks that were opened and not closed, by the identifier of the
    /// opening operation.
    pub mark_begin: Map<OpId, MarkDataView>,
    /// The operations that closed a mark which was not open here.
    pub mark_end: Seq<OpId>,
}

impl IndexView {
    /// The index of no operations.
    pub open spec fn new() -> IndexView {
        IndexView {
            visible: Map::empty(),
            width: 0,
            ops: Set::empty(),
            never_seen_puts: true,
            mark_begin: Map::empty(),
            mark_end: Seq::empty(),
        }
    }

    /// One more visible operation at the key of `op`; the first one at a
    /// key adds its width.
    pub open spec fn add_visible(self, op: OpView) -> IndexView {
        let key = op.elemid_or_key();
        if self.visible.contains_key(key) {
            IndexView { visible: self.visible.insert(key, self.visible[key] + 1), ..self }
        } else {
            IndexView {
                visible: self.visible.insert(key, 1),
                width: self.width + op.width(ListEncoding::Text),
                ..self
            }
        }
    }

    /// One visible operation fewer at the key of `op`; with the last one
    /// the key goes, and the width of `op` with it, stopping at zero.
    pub open spec fn sub_visible(self, op: OpView) -> IndexView {
        let key = op.elemid_or_key();
        if !self.visible.contains_key(key) {
            self
        } else if self.visible[key] == 1 {
            IndexView {
                visible: self.visible.remove(key),
                width: sub_or_zero(self.width, op.width(ListEncoding::Text)),
                ..self
            }
        } else {
            IndexView { visible: self.visible.insert(key, (self.visible[key] - 1) as nat), ..self }
        }
    }

    /// The open marks after `op` is inserted: an opening operation is
    /// recorded, and a closing one takes away the mark that the operation
    /// just before it opened.
    pub open spec fn marks_after_insert(self, op: OpView) -> Map<OpId, MarkDataView> {
        if op.is_mark_begin() {
            self.mark_begin.insert(op.id, op.mark_data())
        } else if op.is_mark_end() && op.id.spec_prev() is Some {
            self.mark_begin.remove(op.id.spec_prev().unwrap())
        } else {
            self.mark_begin
        }
    }

    /// Whether `op` closes a mark that is open in the index.
    pub open spec fn closes_open_mark(self, op: OpView) -> bool {
        op.is_mark_end() && op.id.spec_prev() is Some && self.mark_begin.contains_key(
            op.id.spec_prev().unwrap(),
        )
    }

    /// The unpaired closing operations after `op` is inserted.
    pub open spec fn ends_after_insert(self, op: OpView) -> Seq<OpId> {
        if op.is_mark_end() && !self.closes_open_mark(op) {
            self.mark_end.push(op.id)
        } else {
            self.mark_end
        }
    }

    /// The index after `op` is inserted.
    pub open spec fn insert(self, op: OpView) -> IndexView {
        let base = IndexView {
            never_seen_puts: self.never_seen_puts && op.insert,
            ops: self.ops.insert(op.id),
            mark_begin: self.marks_after_insert(op),
            mark_end: self.ends_after_insert(op),
            ..self
        };
        if op.visible() {
            base.add_visible(op)
        } else {
            base
        }
    }

    /// The index after `op` is removed.
    pub open spec fn remove(self, op: OpView) -> IndexView {
        let base = IndexView {
            ops: self.ops.remove(op.id),
            mark_begin: if op.is_mark_begin() {
                self.mark_begin.remove(op.id)
            } else {
                self.mark_begin
            },
            mark_end: if op.is_mark_end() {
                self.mark_end.filter(other_than(op.id))
            } else {
                self.mark_end
            },
            ..self
        };
        if op.visible() {
            base.sub_visible(op)
        } else {
            base
        }
    }

    /// The index after the visibility of `op` changed from `old_vis` to
    /// `new_vis`.
    pub open spec fn change_vis(self, old_vis: bool, new_vis: bool, op: OpView) -> IndexView {
        if old_vis && !new_vis {
            self.sub_visible(op)
        } else if !old_vis && new_vis {
            self.add_visible(op)
        } else {
            self
        }
    }

    /// The counts of two maps added up, key by key.
    pub open spec fn sum_counts(a: Map<KeyView, nat>, b: Map<KeyView, nat>) -> Map<KeyView, nat> {
        Map::new(
            |k: KeyView| a.contains_key(k) || b.contains_key(k),
            |k: KeyView| count_of(a, k) + count_of(b, k),
        )
    }

    /// The index of a node whose children have the indices `self` and
    /// `other`. A mark held by both is taken from `other`.
    pub open spec fn merge(self, other: IndexView) -> IndexView {
        IndexView {
            visible: Self::sum_counts(self.visible, other.visible),
            width: self.width + other.width,
            ops: self.ops.union(other.ops),
            never_seen_puts: self.never_seen_puts && other.never_seen_puts,
            mark_begin: self.mark_begin.union_prefer_right(other.mark_begin),
            mark_end: self.mark_end + other.mark_end,
        }
    }

    /// Whether the counts that inserting `op` makes fit the machine's
    /// `usize`.
    pub open spec fn can_add_visible(self, op: OpView) -> bool {
        let key = op.elemid_or_key();
        if self.visible.contains_key(key) {
            self.visible[key] + 1 <= usize::MAX
        } else {
            self.width + op.width(ListEncoding::Text) <= usize::MAX
        }
    }

    /// Whether a visible operation is counted at the key of `op`.
    pub open spec fn can_sub_visible(self, op: OpView) -> bool {
        self.visible.contains_key(op.elemid_or_key())
    }

    /// Whether the sums that merging with `other` makes fit the machine's
    /// `usize`.
    pub open spec fn can_merge(self, other: IndexView) -> bool {
        &&& self.width + other.width <= usize::MAX
        &&& forall|k: KeyView| #[trigger]
            other.visible.contains_key(k) ==> count_of(self.visible, k) + other.visible[k]
                <= usize::MAX
    }

    /// No key is held with a count of zero.
    pub open spec fn counts_positive(self) -> bool {
        forall|k: KeyView| #[trigger] self.visible.contains_key(k) ==> self.visible[k] >= 1
    }
}

/// The index of one node.
#[derive(Debug, PartialEq)]
pub struct Index {
    /// The visible keys, each with the number of its visible operations.
    visible: HashMap<Key, usize, FxBuildHasher>,
    visible_text: TextWidth,
    /// The identifiers of the operations in this node and below.
    ops: HashSet<(u64, usize), FxBuildHasher>,
    never_seen_puts: bool,
    mark_begin: HashMap<(u64, usize), OwnedMarkData, FxBuildHasher>,
    mark_end: Vec<OpId>,
}

impl View for Index {
    type V = IndexView;

    closed spec fn view(&self) -> IndexView {
        IndexView {
            visible: key_counts(self.visible),
            width: self.visible_text.width as nat,
            ops: id_set(self.ops),
            never_seen_puts: self.never_seen_puts,
            mark_begin: mark_map(self.mark_begin),
            mark_end: self.mark_end@,
        }
    }
}

impl Default for Index {
    fn default() -> (index: Index)
        ensures
            index@ == IndexView::new(),
            index.wf(),
    {
        Index::new()
    }
}

impl Clone for Index {
    fn clone(&self) -> (c: Index)
        ensures
            c@ == self@,
    {
        let mark_end: Vec<OpId> = self.mark_end.clone();
        assert(mark_end@ =~= self.mark_end@);
        Index {
            visible: key_counts_clone(&self.visible),
            visible_text: TextWidth { width: self.visible_text.width },
            ops: id_set_clone(&self.ops),
            never_seen_puts: self.never_seen_puts,
            mark_begin: mark_map_clone(&self.mark_begin),
            mark_end,
        }
    }
}

impl Index {
    /// The index is well formed: it counts no key with zero.
    pub open spec fn wf(&self) -> bool {
        self@.counts_positive()
    }

    /// The index of no operations.
    pub fn new() -> (index: Index)
        ensures
            index@ == IndexView::new(),
            index.wf(),
    {
        Index {
            visible: key_counts_new(),
            visible_text: TextWidth { width: 0 },
            ops: id_set_new(),
            never_seen_puts: true,
            mark_begin: mark_map_new(),
            mark_end: Vec::new(),
        }
    }

    /// Whether every operation seen so far inserted an element.
    pub fn has_never_seen_puts(&self) -> (b: bool)
        ensures
            b == self@.never_seen_puts,
    {
        self.never_seen_puts
    }

    /// The length of what is visible: the number of visible keys of a list,
    /// the summed width of a text.
    pub fn visible_len(&self, encoding: ListEncoding) -> (n: usize)
        ensures
            n == match encoding {
                ListEncoding::List => self@.visible.dom().len(),
                ListEncoding::Text => self@.width,
            },
    {
        match encoding {
            ListEncoding::List => key_counts_len(&self.visible),
            ListEncoding::Text => self.visible_text.width,
        }
    }

    /// Whether a visible operation is counted at the key `seen`.
    pub fn has_visible(&self, seen: &Key) -> (b: bool)
        ensures
            b == self@.visible.contains_key(seen@),
    {
        key_counts_contains(&self.visible, seen)
    }

    /// Whether the index holds the identifier `id`.
    pub fn has_op(&self, id: &OpId) -> (b: bool)
        ensures
            b == self@.ops.contains(*id),
    {
        id_set_contains(&self.ops, id)
    }

    /// The number of identifiers that the index holds.
    pub fn ops_len(&self) -> (n: usize)
        ensures
            n == self@.ops.len(),
    {
        id_set_len(&self.ops)
    }

    /// The number of visible operations counted at `key`.
    pub fn visible_count(&self, key: &Key) -> (n: usize)
        ensures
            n == count_of(self@.visible, key@),
    {
        match key_counts_get(&self.visible, key) {
            Some(n) => n,
            None => 0,
        }
    }

    /// Whether the mark that `id` opened is open in the index.
    pub fn has_mark_begin(&self, id: &OpId) -> (b: bool)
        ensures
            b == self@.mark_begin.contains_key(*id),
    {
        mark_map_contains(&self.mark_begin, id)
    }

    /// The number of marks that are open in the index.
    pub fn mark_begin_len(&self) -> (n: usize)
        ensures
            n == self@.mark_begin.dom().len(),
    {
        mark_map_len(&self.mark_begin)
    }

    /// The operations that closed a mark which was not open here, in the
    /// order in which they came.
    pub fn mark_end(&self) -> (ids: &[OpId])
        ensures
            ids@ == self@.mark_end,
    {
        self.mark_end.as_slice()
    }

    /// Whether inserting `op` keeps every count within `usize`.
    pub fn can_insert(&self, op: &Op<'_>) -> (b: bool)
        ensures
            b == (op@.visible() ==> self@.can_add_visible(op@)),
    {
        if op.visible() {
            self.can_add_visible(op)
        } else {
            true
        }
    }

    /// Whether removing `op` finds what it takes away: a count at the key
    /// of `op`, if `op` is visible.
    pub fn can_remove(&self, op: &Op<'_>) -> (b: bool)
        ensures
            b == (op@.visible() ==> self@.can_sub_visible(op@)),
    {
        if op.visible() {
            let key = op.elemid_or_key().into_owned();
            key_counts_contains(&self.visible, &key)
        } else {
            true
        }
    }

    /// Whether the change of visibility can be made: a count to take from
    /// where the operation becomes invisible, room for one more where it
    /// becomes visible.
    pub fn can_change_vis(&self, change_vis: &ChangeVisibility<'_>) -> (b: bool)
        ensures
            b == ({
                &&& change_vis.old_vis && !change_vis.new_vis ==> self@.can_sub_visible(
                    change_vis.op@,
                )
                &&& !change_vis.old_vis && change_vis.new_vis ==> self@.can_add_visible(
                    change_vis.op@,
                )
            }),
    {
        if change_vis.old_vis && !change_vis.new_vis {
            let key = change_vis.op.elemid_or_key().into_owned();
            key_counts_contains(&self.visible, &key)
        } else if !change_vis.old_vis && change_vis.new_vis {
            self.can_add_visible(change_vis.op)
        } else {
            true
        }
    }

    fn can_add_visible(&self, op: &Op<'_>) -> (b: bool)
        ensures
            b == self@.can_add_visible(op@),
    {
        let key = op.elemid_or_key().into_owned();
        match key_counts_get(&self.visible, &key) {
            Some(n) => n < usize::MAX,
            None => op.width(ListEncoding::Text) <= usize::MAX - self.visible_text.width,
        }
    }

    fn add_visible(&mut self, op: &Op<'_>)
        requires
            old(self).wf(),
            old(self)@.can_add_visible(op@),
        ensures
            final(self)@ == old(self)@.add_visible(op@),
            final(self).wf(),
    {
        let key = op.elemid_or_key().into_owned();
        match key_counts_get(&self.visible, &key) {
            Some(n) => {
                key_counts_insert(&mut self.visible, key, n + 1);
            },
            None => {
                key_counts_insert(&mut self.visible, key, 1);
                self.visible_text.add_op(op);
            },
        }
    }

    fn sub_visible(&mut self, op: &Op<'_>)
        requires
            old(self).wf(),
            old(self)@.can_sub_visible(op@),
        ensures
            final(self)@ == old(self)@.sub_visible(op@),
            final(self).wf(),
    {
        let key = op.elemid_or_key().into_owned();
        match key_counts_get(&self.visible, &key) {
            Some(n) if n == 1 => {
                key_counts_remove(&mut self.visible, &key);
                self.visible_text.remove_op(op);
            },
            Some(n) => {
                key_counts_insert(&mut self.visible, key, n - 1);
            },
            None => {
                proof {
                    assert(false);
                }
            },
        }
    }

    /// Records a change of the visibility of one operation, and hands the
    /// change back for the node above.
    pub fn change_vis<'a>(&mut self, change_vis: ChangeVisibility<'a>) -> (r: ChangeVisibility<'a>)
        requires
            old(self).wf(),
            change_vis.old_vis && !change_vis.new_vis ==> old(self)@.can_sub_visible(
                change_vis.op@,
            ),
            !change_vis.old_vis && change_vis.new_vis ==> old(self)@.can_add_visible(
                change_vis.op@,
            ),
        ensures
            final(self)@ == old(self)@.change_vis(
                change_vis.old_vis,
                change_vis.new_vis,
                change_vis.op@,
            ),
            final(self).wf(),
            r == change_vis,
    {
        match (change_vis.old_vis, change_vis.new_vis) {
            (true, false) => self.sub_visible(change_vis.op),
            (false, true) => self.add_visible(change_vis.op),
            _ => {},
        }
        change_vis
    }

    /// Adds one operation to the index if every count stays within the
    /// machine's `usize`; otherwise the index stays as it is. The result
    /// says which.
    pub fn try_insert(&mut self, op: &Op<'_>) -> (done: bool)
        requires
            old(self).wf(),
        ensures
            final(self).wf(),
            done == (op@.visible() ==> old(self)@.can_add_visible(op@)),
            done ==> final(self)@ == old(self)@.insert(op@),
            !done ==> final(self)@ == old(self)@,
    {
        if self.can_insert(op) {
            self.insert(op);
            true
        } else {
            false
        }
    }

    /// Adds one operation to the index.
    pub fn insert(&mut self, op: &Op<'_>)
        requires
            old(self).wf(),
            op@.visible() ==> old(self)@.can_add_visible(op@),
        ensures
            final(self)@ == old(self)@.insert(op@),
            final(self)@.never_seen_puts == (old(self)@.never_seen_puts && op@.insert),
            final(self).wf(),
    {
        self.never_seen_puts = self.never_seen_puts && op.insert;

        id_set_insert(&mut self.ops, op.id);

        match op.mark_begin() {
            Some(data) => {
                mark_map_insert(&mut self.mark_begin, op.id, data.into_owned());
            },
            None => {
                if op.is_mark_end() {
                    let closed: bool = match op.id.prev() {
                        Some(before) => mark_map_remove(&mut self.mark_begin, &before).is_some(),
                        None => false,
                    };
                    if !closed {
                        self.mark_end.push(op.id);
                    }
                    assert(mark_map(self.mark_begin) =~= old(self)@.marks_after_insert(op@));
                }
            },
        }

        if op.visible() {
            self.add_visible(op);
        }
    }

    /// Takes one operation out of the index.
    pub fn remove(&mut self, op: &Op<'_>)
        requires
            old(self).wf(),
            op@.visible() ==> old(self)@.can_sub_visible(op@),
        ensures
            final(self)@ == old(self)@.remove(op@),
            final(self).wf(),
    {
        id_set_remove(&mut self.ops, &op.id);

        match op.mark_begin() {
            Some(_) => {
                mark_map_remove(&mut self.mark_begin, &op.id);
            },
            None => {
                if op.is_mark_end() {
                    self.mark_end = without_id(&self.mark_end, &op.id);
                }
            },
        }

        assert(self@.visible == old(self)@.visible);
        if op.visible() {
            self.sub_visible(op);
        }
    }
}

impl Index {
    /// Whether merging with `other` keeps every count within `usize`.
    pub fn can_merge(&self, other: &Index) -> (b: bool)
        ensures
            b == self@.can_merge(other@),
    {
        if other.visible_text.width > usize::MAX - self.visible_text.width {
            return false;
        }
        let entries = key_counts_entries(&other.visible);
        let mut i: usize = 0;
        while i < entries.len()
            invariant
                i <= entries.len(),
                forall|j: int|
                    0 <= j < entries.len() ==> other@.visible.contains_key(
                        (#[trigger] entries[j]).0@,
                    ) && other@.visible[entries[j].0@] == entries[j].1,
                forall|j: int|
                    0 <= j < i ==> count_of(self@.visible, (#[trigger] entries[j]).0@)
                        + entries[j].1 <= usize::MAX,
            decreases entries.len() - i,
        {
            let fits: bool = match key_counts_get(&self.visible, entries[i].0) {
                Some(n) => entries[i].1 <= usize::MAX - n,
                None => true,
            };
            if !fits {
                assert(other@.visible.contains_key(entries[i as int].0@));
                return false;
            }
            i = i + 1;
        }
        assert forall|k: KeyView| #[trigger] other@.visible.contains_key(k) implies count_of(
            self@.visible,
            k,
        ) + other@.visible[k] <= usize::MAX by {
            let j = choose|j: int| 0 <= j < entries.len() && (#[trigger] entries[j]).0@ == k;
            assert(entries[j].0@ == k);
        }
        true
    }

    /// Whether a mark is open in both indices. In a well-formed tree none
    /// is; where one is, [`Index::merge`] keeps the mark of the index that
    /// is taken in.
    pub fn shares_mark_with(&self, other: &Index) -> (b: bool)
        ensures
            b == exists|id: OpId|
                self@.mark_begin.contains_key(id) && other@.mark_begin.contains_key(id),
    {
        let ids = mark_map_ids(&other.mark_begin);
        let mut i: usize = 0;
        while i < ids.len()
            invariant
                i <= ids.len(),
                forall|id: OpId|
                    other@.mark_begin.contains_key(id) <==> #[trigger] ids@.contains(id),
                forall|j: int| 0 <= j < i ==> !self@.mark_begin.contains_key(#[trigger] ids@[j]),
            decreases ids.len() - i,
        {
            if mark_map_contains(&self.mark_begin, &ids[i]) {
                assert(ids@.contains(ids@[i as int]));
                return true;
            }
            i = i + 1;
        }
        assert forall|id: OpId|
            !(self@.mark_begin.contains_key(id) && other@.mark_begin.contains_key(id)) by {
            if other@.mark_begin.contains_key(id) {
                assert(ids@.contains(id));
                let j = choose|j: int| 0 <= j < ids@.len() && ids@[j] == id;
                assert(!self@.mark_begin.contains_key(ids@[j]));
            }
        }
        false
    }

    /// Takes in the index of a sibling if every count stays within the
    /// machine's `usize`; otherwise the index stays as it is. The result
    /// says which.
    pub fn try_merge(&mut self, other: &Index) -> (done: bool)
        requires
            old(self).wf(),
            other.wf(),
        ensures
            final(self).wf(),
            done == old(self)@.can_merge(other@),
            done ==> final(self)@ == old(self)@.merge(other@),
            !done ==> final(self)@ == old(self)@,
    {
        if self.can_merge(other) {
            self.merge(other);
            true
        } else {
            false
        }
    }

    /// Takes in the index of a sibling: the index of both together.
    pub fn merge(&mut self, other: &Index)
        requires
            old(self).wf(),
            other.wf(),
            old(self)@.can_merge(other@),
        ensures
            final(self)@ == old(self)@.merge(other@),
            final(self)@.never_seen_puts == (old(self)@.never_seen_puts
                && other@.never_seen_puts),
            final(self).wf(),
    {
        let ids = id_set_items(&other.ops);
        absorb_ids(&mut self.ops, &ids);
        assert(ids@.to_set() =~= other@.ops);

        let entries = key_counts_entries(&other.visible);
        absorb_counts(&mut self.visible, &entries, Ghost(other@.visible));
        assert(key_counts(self.visible) =~= IndexView::sum_counts(
            old(self)@.visible,
            other@.visible,
        )) by {
            assert forall|k: KeyView| other@.visible.contains_key(k) implies seen_key(
                entries@,
                entries.len() as int,
                k,
            ) by {
                let j = choose|j: int| 0 <= j < entries.len() && (#[trigger] entries[j]).0@ == k;
                assert(entries@[j].0@ == k);
            }
            assert forall|k: KeyView|
                seen_key(entries@, entries.len() as int, k) implies other@.visible.contains_key(
                k,
            ) by {
                let j = choose|j: int| 0 <= j < entries.len() && (#[trigger] entries@[j]).0@ == k;
                assert(other@.visible.contains_key(entries[j].0@));
            }
        }

        let marks = mark_map_clone(&other.mark_begin);
        mark_map_extend(&mut self.mark_begin, marks);
        append_ids(&mut self.mark_end, &other.mark_end);
        self.visible_text.merge(&other.visible_text);
        self.never_seen_puts = self.never_seen_puts && other.never_seen_puts;
    }
}

impl Index {
    /// The index of the operations of a store, built from nothing by
    /// inserting one after the other; `None` where a count would pass the
    /// machine's `usize`.
    pub fn build(ops: &OpSet<'_>) -> (r: Option<Index>)
        ensures
            match r {
                Some(index) => insertable(IndexView::new(), ops@) && index@ == built(ops@)
                    && index.wf() && index@.never_seen_puts == all_insert(ops@),
                None => !insertable(IndexView::new(), ops@),
            },
    {
        proof {
            lemma_flag_after_inserts(IndexView::new(), ops@);
        }
        let mut index = Index::new();
        let mut row: usize = 0;
        let n: usize = ops.len();
        assert(ops@.take(0) =~= Seq::<OpView>::empty());
        while row < n
            invariant
                row <= n,
                n == ops@.len(),
                index.wf(),
                insertable(IndexView::new(), ops@.take(row as int)),
                index@ == built(ops@.take(row as int)),
            decreases n - row,
        {
            let op = match ops.get(row) {
                Some(op) => op,
                None => {
                    return None;
                },
            };
            proof {
                let upto = ops@.take(row + 1);
                assert(upto.drop_last() =~= ops@.take(row as int));
                assert(upto.last() == op@);
            }
            if !index.can_insert(&op) {
                proof {
                    if insertable(IndexView::new(), ops@) {
                        lemma_insertable_prefix(IndexView::new(), ops@, row + 1);
                    }
                }
                return None;
            }
            index.insert(&op);
            row = row + 1;
        }
        assert(ops@.take(row as int) =~= ops@);
        Some(index)
    }
}

/// If all the operations can be inserted, the first ones can.
pub proof fn lemma_insertable_prefix(start: IndexView, ops: Seq<OpView>, n: int)
    requires
        0 <= n <= ops.len(),
        insertable(start, ops),
    ensures
        insertable(start, ops.take(n)),
    decreases ops.len(),
{
    if n == ops.len() {
        assert(ops.take(n) =~= ops);
    } else {
        lemma_insertable_prefix(start, ops.drop_last(), n);
        assert(ops.drop_last().take(n) =~= ops.take(n));
    }
}

/// Whether the key `k` is among the first `n` of the entries.
pub open spec fn seen_key(entries: Seq<(&Key, usize)>, n: int, k: KeyView) -> bool {
    exists|i: int| 0 <= i < n && (#[trigger] entries[i]).0@ == k
}

fn absorb_ids(dst: &mut HashSet<(u64, usize), FxBuildHasher>, ids: &Vec<OpId>)
    ensures
        id_set(*final(dst)) == id_set(*old(dst)).union(ids@.to_set()),
{
    let mut i: usize = 0;
    assert(id_set(*dst) =~= id_set(*old(dst)).union(ids@.take(0).to_set()));
    while i < ids.len()
        invariant
            i <= ids.len(),
            id_set(*dst) == id_set(*old(dst)).union(ids@.take(i as int).to_set()),
        decreases ids.len() - i,
    {
        id_set_insert(dst, ids[i]);
        proof {
            let before = ids@.take(i as int);
            let after = ids@.take(i + 1);
            assert(after =~= before.push(ids@[i as int]));
            assert forall|id: OpId| after.to_set().contains(id) <==> before.to_set().insert(
                ids@[i as int],
            ).contains(id) by {
                if before.contains(id) {
                    let j = choose|j: int| 0 <= j < before.len() && before[j] == id;
                    assert(after[j] == id);
                }
                if id == ids@[i as int] {
                    assert(after[i as int] == id);
                }
            }
            assert(after.to_set() =~= before.to_set().insert(ids@[i as int]));
            assert(id_set(*dst) =~= id_set(*old(dst)).union(after.to_set()));
        }
        i = i + 1;
    }
    assert(ids@.take(i as int) =~= ids@);
}

/// The counts of `base` with those that `other` holds for the first `n` of
/// the entries added.
pub open spec fn partial_sum(
    base: Map<KeyView, nat>,
    other: Map<KeyView, nat>,
    entries: Seq<(&Key, usize)>,
    n: int,
) -> Map<KeyView, nat> {
    Map::new(
        |k: KeyView| base.contains_key(k) || seen_key(entries, n, k),
        |k: KeyView|
            count_of(base, k) + if seen_key(entries, n, k) {
                other[k]
            } else {
                0
            },
    )
}

fn absorb_counts(
    dst: &mut HashMap<Key, usize, FxBuildHasher>,
    entries: &Vec<(&Key, usize)>,
    Ghost(other): Ghost<Map<KeyView, nat>>,
)
    requires
        forall|i: int|
            0 <= i < entries.len() ==> other.contains_key((#[trigger] entries[i]).0@)
                && other[entries[i].0@] == entries[i].1,
        forall|i: int, j: int| 0 <= i < j < entries.len() ==> entries[i].0@ != entries[j].0@,
        forall|k: KeyView| #[trigger]
            other.contains_key(k) ==> count_of(key_counts(*old(dst)), k) + other[k]
                <= usize::MAX,
    ensures
        key_counts(*final(dst)) == partial_sum(
            key_counts(*old(dst)),
            other,
            entries@,
            entries.len() as int,
        ),
{
    let mut i: usize = 0;
    let ghost base = key_counts(*dst);
    assert(key_counts(*dst) =~= partial_sum(base, other, entries@, 0));
    while i < entries.len()
        invariant
            i <= entries.len(),
            base == key_counts(*old(dst)),
            forall|j: int|
                0 <= j < entries.len() ==> other.contains_key((#[trigger] entries[j]).0@)
                    && other[entries[j].0@] == entries[j].1,
            forall|a: int, b: int| 0 <= a < b < entries.len() ==> entries[a].0@ != entries[b].0@,
            forall|k: KeyView| #[trigger]
                other.contains_key(k) ==> count_of(base, k) + other[k] <= usize::MAX,
            key_counts(*dst) == partial_sum(base, other, entries@, i as int),
        decreases entries.len() - i,
    {
        let key: &Key = entries[i].0;
        let n: usize = entries[i].1;
        let ghost before = key_counts(*dst);
        proof {
            assert(entries@[i as int].0@ == key@);
            assert(other.contains_key(key@));
            if seen_key(entries@, i as int, key@) {
                let j = choose|j: int| 0 <= j < i && (#[trigger] entries@[j]).0@ == key@;
                assert(false);
            }
        }
        match key_counts_get(dst, key) {
            Some(m) => {
                key_counts_insert(dst, key.to_ref().into_owned(), m + n);
            },
            None => {
                key_counts_insert(dst, key.to_ref().into_owned(), n);
            },
        }
        proof {
            assert forall|k: KeyView| seen_key(entries@, i + 1, k) <==> (seen_key(
                entries@,
                i as int,
                k,
            ) || k == key@) by {
                if seen_key(entries@, i + 1, k) {
                    let j = choose|j: int| 0 <= j < i + 1 && (#[trigger] entries@[j]).0@ == k;
                    if j < i {
                        assert(seen_key(entries@, i as int, k));
                    }
                }
                if seen_key(entries@, i as int, k) {
                    let j = choose|j: int| 0 <= j < i && (#[trigger] entries@[j]).0@ == k;
                    assert(0 <= j < i + 1 && entries@[j].0@ == k);
                }
                if k == key@ {
                    assert(entries@[i as int].0@ == k);
                }
            }
            assert(key_counts(*dst) =~= partial_sum(base, other, entries@, i + 1));
        }
        i = i + 1;
    }
}

fn append_ids(dst: &mut Vec<OpId>, src: &Vec<OpId>)
    ensures
        final(dst)@ == old(dst)@ + src@,
{
    let mut i: usize = 0;
    assert(dst@ =~= old(dst)@ + src@.take(0));
    while i < src.len()
        invariant
            i <= src.len(),
            dst@ == old(dst)@ + src@.take(i as int),
        decreases src.len() - i,
    {
        dst.push(src[i]);
        assert(src@.take(i + 1) =~= src@.take(i as int).push(src@[i as int]));
        assert(dst@ =~= old(dst)@ + src@.take(i + 1));
        i = i + 1;
    }
    assert(src@.take(i as int) =~= src@);
}

/// The identifiers of `ids` that are not `id`, in their order.
pub fn without_id(ids: &Vec<OpId>, id: &OpId) -> (kept: Vec<OpId>)
    ensures
        kept@ == ids@.filter(other_than(*id)),
{
    let mut kept: Vec<OpId> = Vec::new();
    let mut i: usize = 0;
    let ghost keep = other_than(*id);
    proof {
        assert(ids@.take(0) =~= Seq::<OpId>::empty());
        reveal(Seq::filter);
    }
    while i < ids.len()
        invariant
            i <= ids.len(),
            keep == other_than(*id),
            kept@ == ids@.take(i as int).filter(keep),
        decreases ids.len() - i,
    {
        proof {
            assert(ids@.take(i + 1) =~= ids@.take(i as int).push(ids@[i as int]));
            ids@.take(i as int).lemma_filter_push(ids@[i as int], keep);
        }
        if !ids[i].same(id) {
            kept.push(ids[i]);
        }
        i = i + 1;
    }
    assert(ids@.take(i as int) =~= ids@);
    kept
}

} // verus!
