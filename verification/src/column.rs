//! A run-length packed column of optional values, and the cursor that walks
//! it with the running total of its group.

use crate::meta::ValueMeta;
use crate::pack::{MaybePackable, PackError, Packable, ScanMeta};
use crate::types::{Action, ActorIdx};
use std::ops::Range;
use vstd::prelude::*;

verus! {

/// A run of a column: `count` times the same value, or the same absence of
/// one.
#[derive(Debug, Clone, Copy, PartialEq)]
pub struct Run<T> {
    pub count: usize,
    pub value: Option<T>,
}

/// The values that a sequence of runs stands for.
pub open spec fn expand<T>(runs: Seq<Run<T>>) -> Seq<Option<T>>
    decreases runs.len(),
{
    if runs.len() == 0 {
        Seq::empty()
    } else {
        expand(runs.drop_last()) + Seq::new(runs.last().count as nat, |i: int| runs.last().value)
    }
}

/// What one item of a column adds to the running total of its group.
pub open spec fn item_group<T: Packable>(item: Option<T>) -> nat {
    match item {
        Some(x) => T::group_of(x) as nat,
        None => 0,
    }
}

/// The total of the group over a sequence of items.
pub open spec fn group_sum<T: Packable>(items: Seq<Option<T>>) -> nat
    decreases items.len(),
{
    if items.len() == 0 {
        0
    } else {
        group_sum(items.drop_last()) + item_group(items.last())
    }
}

/// Whether the runs are packed as a column packs them: no run is empty,
/// none holds more than `chunk` values (or more than one, where `chunk` is
/// zero), and a run is followed by a run of the same value only if it is
/// full.
pub open spec fn packed<T>(runs: Seq<Run<T>>, chunk: usize) -> bool {
    &&& forall|r: int|
        0 <= r < runs.len() ==> 1 <= (#[trigger] runs[r]).count && (runs[r].count <= chunk
            || runs[r].count == 1)
    &&& forall|r: int|
        0 <= r < runs.len() - 1 && (#[trigger] runs[r]).value == runs[r + 1].value
            ==> runs[r].count >= chunk
}

/// The values of the first runs are the first values of all the runs.
pub proof fn lemma_expand_prefix<T>(runs: Seq<Run<T>>, r: int)
    requires
        0 <= r <= runs.len(),
    ensures
        expand(runs.take(r)).len() <= expand(runs).len(),
        expand(runs).take(expand(runs.take(r)).len() as int) == expand(runs.take(r)),
    decreases runs.len(),
{
    if r == runs.len() {
        assert(runs.take(r) =~= runs);
        assert(expand(runs).take(expand(runs).len() as int) =~= expand(runs));
    } else {
        let shorter = runs.drop_last();
        lemma_expand_prefix(shorter, r);
        assert(shorter.take(r) =~= runs.take(r));
        let n = expand(runs.take(r)).len() as int;
        assert(expand(runs).take(n) =~= expand(shorter).take(n));
    }
}

/// The values of one more run.
pub proof fn lemma_expand_step<T>(runs: Seq<Run<T>>, r: int)
    requires
        0 <= r < runs.len(),
    ensures
        expand(runs.take(r + 1)) == expand(runs.take(r)) + Seq::new(
            runs[r].count as nat,
            |i: int| runs[r].value,
        ),
{
    assert(runs.take(r + 1).drop_last() =~= runs.take(r));
    assert(runs.take(r + 1).last() == runs[r]);
}

/// The value at a place inside a run.
pub proof fn lemma_expand_index<T>(runs: Seq<Run<T>>, r: int, offset: int)
    requires
        0 <= r < runs.len(),
        0 <= offset < runs[r].count,
    ensures
        expand(runs.take(r)).len() + offset < expand(runs).len(),
        expand(runs)[expand(runs.take(r)).len() + offset] == runs[r].value,
{
    lemma_expand_prefix(runs, r + 1);
    lemma_expand_step(runs, r);
    let upto = expand(runs.take(r + 1));
    let pos = expand(runs.take(r)).len() + offset;
    assert(upto[pos] == runs[r].value);
    assert(expand(runs).take(upto.len() as int)[pos] == expand(runs)[pos]);
}

/// The total over two sequences, one after the other.
pub proof fn lemma_group_sum_add<T: Packable>(a: Seq<Option<T>>, b: Seq<Option<T>>)
    ensures
        group_sum(a + b) == group_sum(a) + group_sum(b),
    decreases b.len(),
{
    if b.len() == 0 {
        assert(a + b =~= a);
    } else {
        lemma_group_sum_add(a, b.drop_last());
        assert((a + b).drop_last() =~= a + b.drop_last());
        assert((a + b).last() == b.last());
    }
}

/// The total over the first items is no more than the total over all.
pub proof fn lemma_group_sum_take<T: Packable>(items: Seq<Option<T>>, n: int)
    requires
        0 <= n <= items.len(),
    ensures
        group_sum(items.take(n)) <= group_sum(items),
        n < items.len() ==> group_sum(items.take(n + 1)) == group_sum(items.take(n)) + item_group(
            items[n],
        ),
{
    assert(items =~= items.take(n) + items.skip(n));
    lemma_group_sum_add(items.take(n), items.skip(n));
    if n < items.len() {
        assert(items.take(n + 1).drop_last() =~= items.take(n));
        assert(items.take(n + 1).last() == items[n]);
    }
}

/// Whether two items of a column are the same.
pub fn same_item<T: Packable>(a: &Option<T>, b: &Option<T>) -> (same: bool)
    ensures
        same == (*a == *b),
{
    match (a, b) {
        (Some(x), Some(y)) => x.same(y),
        (None, None) => true,
        _ => false,
    }
}

/// What one item adds to the running total of its group.
pub fn group_of_item<T: Packable>(item: &Option<T>) -> (g: usize)
    ensures
        g == item_group(*item),
{
    match item {
        Some(x) => T::group(*x),
        None => 0,
    }
}

/// The runs with one more item at their end: the last run takes it if it
/// holds the same value and is not full, and a new run of one starts
/// otherwise.
pub fn append_item<T: Packable>(runs: Vec<Run<T>>, item: Option<T>, chunk: usize) -> (longer: Vec<
    Run<T>,
>)
    requires
        packed(runs@, chunk),
    ensures
        packed(longer@, chunk),
        expand(longer@) == expand(runs@).push(item),
{
    let mut runs = runs;
    let ghost before = runs@;
    if runs.len() > 0 {
        let last: Run<T> = runs[runs.len() - 1];
        if last.count < chunk && same_item(&last.value, &item) {
            runs.pop();
            runs.push(Run { count: last.count + 1, value: item });
            proof {
                let longer = Seq::new((last.count + 1) as nat, |j: int| item);
                let shorter = Seq::new(last.count as nat, |j: int| last.value);
                assert(longer =~= shorter.push(item));
                assert(runs@.drop_last() =~= before.drop_last());
                assert(expand(runs@) =~= expand(before).push(item));
            }
            return runs;
        }
    }
    runs.push(Run { count: 1, value: item });
    proof {
        assert(runs@.drop_last() =~= before);
        assert(Seq::new(1, |j: int| item) =~= seq![item]);
        assert(expand(runs@) =~= expand(before).push(item));
    }
    runs
}

/// Packs items into runs of at most `chunk` equal items, and adds up their
/// group; `None` where the total does not fit a `usize`.
pub fn pack_runs<T: Packable>(items: &Vec<Option<T>>, chunk: usize) -> (r: Option<
    (Vec<Run<T>>, usize),
>)
    ensures
        match r {
            Some((runs, total)) => expand(runs@) == items@ && packed(runs@, chunk) && total
                == group_sum(items@),
            None => group_sum(items@) > usize::MAX,
        },
{
    let mut runs: Vec<Run<T>> = Vec::new();
    let mut total: usize = 0;
    let mut i: usize = 0;
    assert(items@.take(0) =~= Seq::<Option<T>>::empty());
    while i < items.len()
        invariant
            i <= items.len(),
            expand(runs@) == items@.take(i as int),
            packed(runs@, chunk),
            total == group_sum(items@.take(i as int)),
        decreases items.len() - i,
    {
        let item: Option<T> = items[i];
        let g: usize = group_of_item(&item);
        proof {
            lemma_group_sum_take(items@, i as int);
            lemma_group_sum_take(items@, i + 1);
        }
        if g > usize::MAX - total {
            return None;
        }
        total = total + g;
        runs = append_item(runs, item, chunk);
        proof {
            assert(items@.take(i + 1) =~= items@.take(i as int).push(item));
        }
        i = i + 1;
    }
    assert(items@.take(i as int) =~= items@);
    Some((runs, total))
}

/// The items that runs stand for, one by one.
pub fn unpack_runs<T: Packable>(runs: &Vec<Run<T>>) -> (items: Vec<Option<T>>)
    ensures
        items@ == expand(runs@),
{
    let mut items: Vec<Option<T>> = Vec::new();
    let mut r: usize = 0;
    assert(runs@.take(0) =~= Seq::<Run<T>>::empty());
    while r < runs.len()
        invariant
            r <= runs.len(),
            items@ == expand(runs@.take(r as int)),
        decreases runs.len() - r,
    {
        let run: Run<T> = runs[r];
        let mut k: usize = 0;
        let ghost start = items@;
        proof {
            lemma_expand_step(runs@, r as int);
        }
        while k < run.count
            invariant
                k <= run.count,
                items@ == start + Seq::new(k as nat, |j: int| run.value),
            decreases run.count - k,
        {
            items.push(run.value);
            assert(Seq::new((k + 1) as nat, |j: int| run.value) =~= Seq::new(
                k as nat,
                |j: int| run.value,
            ).push(run.value));
            k = k + 1;
        }
        r = r + 1;
    }
    assert(runs@.take(r as int) =~= runs@);
    items
}

/// A column with some of its items replaced: the first `index` items, the
/// new items, and the items after the `del` that were taken out.
pub open spec fn spliced<T>(
    items: Seq<Option<T>>,
    index: int,
    del: int,
    values: Seq<Option<T>>,
) -> Seq<Option<T>> {
    items.take(index) + values + items.skip(index + del)
}

/// What each of the values writes into a column.
pub open spec fn maybe_all<T: Packable, E: MaybePackable<T>>(values: Seq<E>) -> Seq<Option<T>> {
    values.map_values(|e: E| e.maybe())
}

/// A column: optional values, packed into runs of at most `CHUNK` equal
/// ones.
#[derive(Debug)]
pub struct ColumnData<const CHUNK: usize, T: Packable> {
    runs: Vec<Run<T>>,
    len: usize,
    total: usize,
}

impl<const CHUNK: usize, T: Packable> View for ColumnData<CHUNK, T> {
    type V = Seq<Option<T>>;

    closed spec fn view(&self) -> Seq<Option<T>> {
        expand(self.runs@)
    }
}

impl<const CHUNK: usize, T: Packable> Clone for ColumnData<CHUNK, T> {
    fn clone(&self) -> (col: Self)
        ensures
            col@ == self@,
    {
        proof {
            use_type_invariant(self);
        }
        let mut runs: Vec<Run<T>> = Vec::new();
        let mut r: usize = 0;
        while r < self.runs.len()
            invariant
                r <= self.runs.len(),
                runs@ == self.runs@.take(r as int),
            decreases self.runs.len() - r,
        {
            runs.push(self.runs[r]);
            assert(self.runs@.take(r + 1) =~= self.runs@.take(r as int).push(self.runs@[r as int]));
            r = r + 1;
        }
        assert(runs@ =~= self.runs@);
        ColumnData { runs, len: self.len, total: self.total }
    }
}

impl<const CHUNK: usize, T: Packable> ColumnData<CHUNK, T> {
    #[verifier::type_invariant]
    spec fn well_packed(self) -> bool {
        &&& packed(self.runs@, CHUNK)
        &&& self.len == expand(self.runs@).len()
        &&& self.total == group_sum(expand(self.runs@))
    }

    /// A column without items.
    pub fn new() -> (col: Self)
        ensures
            col@ == Seq::<Option<T>>::empty(),
    {
        ColumnData { runs: Vec::new(), len: 0, total: 0 }
    }

    /// The number of items.
    pub fn len(&self) -> (n: usize)
        ensures
            n == self@.len(),
    {
        proof {
            use_type_invariant(self);
        }
        self.len
    }

    /// The total of the group over all the items.
    pub fn group_total(&self) -> (g: usize)
        ensures
            g == group_sum(self@),
    {
        proof {
            use_type_invariant(self);
        }
        self.total
    }

    /// The runs into which the items are packed.
    pub fn runs(&self) -> (runs: &[Run<T>])
        ensures
            expand(runs@) == self@,
            packed(runs@, CHUNK),
    {
        proof {
            use_type_invariant(self);
        }
        self.runs.as_slice()
    }

    /// The items, one by one.
    pub fn to_vec(&self) -> (items: Vec<Option<T>>)
        ensures
            items@ == self@,
    {
        unpack_runs(&self.runs)
    }

    /// Takes `del` items out at `index` and puts `values` in their place,
    /// if the column has that many items there and the total of its group
    /// still fits a `usize`; otherwise the column stays as it is. The
    /// result says which.
    pub fn try_splice<E: MaybePackable<T>>(&mut self, index: usize, del: usize, values: Vec<E>) -> (done:
        bool)
        ensures
            done == (index + del <= old(self)@.len() && group_sum(
                spliced(old(self)@, index as int, del as int, maybe_all::<T, E>(values@)),
            ) <= usize::MAX),
            done ==> final(self)@ == spliced(
                old(self)@,
                index as int,
                del as int,
                maybe_all::<T, E>(values@),
            ),
            !done ==> final(self)@ == old(self)@,
    {
        proof {
            use_type_invariant(&*self);
        }
        if del > self.len || index > self.len - del {
            return false;
        }
        let old_items: Vec<Option<T>> = unpack_runs(&self.runs);
        let mut items: Vec<Option<T>> = Vec::new();
        let mut i: usize = 0;
        while i < index
            invariant
                i <= index <= old_items.len(),
                items@ == old_items@.take(i as int),
            decreases index - i,
        {
            items.push(old_items[i]);
            assert(old_items@.take(i + 1) =~= old_items@.take(i as int).push(old_items@[i as int]));
            i = i + 1;
        }
        let mut j: usize = 0;
        while j < values.len()
            invariant
                j <= values.len(),
                items@ == old_items@.take(index as int) + maybe_all::<T, E>(values@).take(j as int),
            decreases values.len() - j,
        {
            items.push(values[j].maybe_packable());
            assert(maybe_all::<T, E>(values@).take(j + 1) =~= maybe_all::<T, E>(values@).take(
                j as int,
            ).push(values@[j as int].maybe()));
            j = j + 1;
        }
        assert(maybe_all::<T, E>(values@).take(j as int) =~= maybe_all::<T, E>(values@));
        let mut k: usize = index + del;
        let ghost head = items@;
        assert(old_items@.subrange(index + del, k as int) =~= Seq::<Option<T>>::empty());
        while k < old_items.len()
            invariant
                index + del <= k <= old_items.len(),
                items@ == head + old_items@.subrange(index + del, k as int),
            decreases old_items.len() - k,
        {
            items.push(old_items[k]);
            assert(old_items@.subrange(index + del, k + 1) =~= old_items@.subrange(
                index + del,
                k as int,
            ).push(old_items@[k as int]));
            k = k + 1;
        }
        assert(old_items@.subrange(index + del, k as int) =~= old_items@.skip(index + del));
        match pack_runs(&items, CHUNK) {
            Some((runs, total)) => {
                let len: usize = items.len();
                *self = ColumnData { runs, len, total };
                true
            },
            None => false,
        }
    }

    /// Appends one item, if the column has room for it and the total of
    /// its group still fits a `usize`; otherwise the column stays as it is.
    /// The result says which.
    pub fn try_push(&mut self, item: Option<T>) -> (done: bool)
        ensures
            done == (old(self)@.len() < usize::MAX && group_sum(old(self)@.push(item))
                <= usize::MAX),
            done ==> final(self)@ == old(self)@.push(item),
            !done ==> final(self)@ == old(self)@,
    {
        proof {
            use_type_invariant(&*self);
            assert(self@.push(item).drop_last() =~= self@);
        }
        let g: usize = group_of_item(&item);
        if self.len == usize::MAX || g > usize::MAX - self.total {
            return false;
        }
        let mut taken = ColumnData::new();
        core::mem::swap(self, &mut taken);
        let ColumnData { runs, len, total } = taken;
        let runs = append_item(runs, item, CHUNK);
        *self = ColumnData { runs, len: len + 1, total: total + g };
        true
    }

    /// Takes `del` items out at `index` and puts `values` in their place.
    pub fn splice<E: MaybePackable<T>>(&mut self, index: usize, del: usize, values: Vec<E>)
        requires
            index + del <= old(self)@.len(),
            group_sum(spliced(old(self)@, index as int, del as int, maybe_all::<T, E>(values@)))
                <= usize::MAX,
        ensures
            final(self)@ == spliced(
                old(self)@,
                index as int,
                del as int,
                maybe_all::<T, E>(values@),
            ),
    {
        let done: bool = self.try_splice(index, del, values);
        assert(done);
    }
}

/// One item of a column as a walk with the group hands it out.
#[derive(Debug, Clone, Copy, PartialEq)]
pub struct ColGroupItem<T> {
    /// The item; a column may hold none at a position.
    pub item: Option<T>,
    /// The position of the item in the column.
    pub pos: usize,
    /// The total of the group over the items before this one: where the
    /// payload of this item starts in the paired column.
    pub group: usize,
}

/// A cursor over the runs of a column: it walks the items from its
/// position to its end, and keeps the total of the group over all the items
/// of the column before its position.
#[derive(Debug)]
pub struct RleCursor<'a, const CHUNK: usize, T: Packable> {
    runs: &'a [Run<T>],
    run: usize,
    offset: usize,
    pos: usize,
    end: usize,
    group: usize,
}

impl<'a, const CHUNK: usize, T: Packable> RleCursor<'a, CHUNK, T> {
    #[verifier::type_invariant]
    spec fn on_an_item(self) -> bool {
        &&& packed(self.runs@, CHUNK)
        &&& self.run <= self.runs@.len()
        &&& self.pos <= self.end <= expand(self.runs@).len()
        &&& self.pos == expand(self.runs@.take(self.run as int)).len() + self.offset
        &&& self.run < self.runs@.len() ==> self.offset < self.runs@[self.run as int].count
        &&& self.run == self.runs@.len() ==> self.offset == 0
        &&& self.group == group_sum(expand(self.runs@).take(self.pos as int))
        &&& group_sum(expand(self.runs@)) <= usize::MAX
    }

    /// The items of the whole column.
    pub closed spec fn column(&self) -> Seq<Option<T>> {
        expand(self.runs@)
    }

    /// The position of the next item.
    pub closed spec fn position(&self) -> usize {
        self.pos
    }

    /// The position at which the walk ends.
    pub closed spec fn end(&self) -> usize {
        self.end
    }

    /// The position of the next item.
    pub fn pos(&self) -> (p: usize)
        ensures
            p == self.position(),
            p <= self.end() <= self.column().len(),
    {
        proof {
            use_type_invariant(self);
        }
        self.pos
    }

    /// The total of the group over the items before the next one.
    pub fn group(&self) -> (g: usize)
        ensures
            g == group_sum(self.column().take(self.position() as int)),
    {
        proof {
            use_type_invariant(self);
        }
        self.group
    }

    /// The next item with its position and the total of the group before
    /// it, if the walk is not at its end.
    pub fn step(&mut self) -> (r: Option<ColGroupItem<T>>)
        ensures
            final(self).column() == old(self).column(),
            final(self).end() == old(self).end(),
            match r {
                Some(found) => {
                    &&& old(self).position() < old(self).end()
                    &&& final(self).position() == old(self).position() + 1
                    &&& found.pos == old(self).position()
                    &&& found.item == old(self).column()[old(self).position() as int]
                    &&& found.group == group_sum(
                        old(self).column().take(old(self).position() as int),
                    )
                },
                None => old(self).position() == old(self).end() && final(self).position() == old(
                    self,
                ).position(),
            },
    {
        proof {
            use_type_invariant(&*self);
        }
        if self.pos >= self.end {
            return None;
        }
        proof {
            if self.run == self.runs@.len() {
                assert(self.runs@.take(self.run as int) =~= self.runs@);
            }
            lemma_expand_index(self.runs@, self.run as int, self.offset as int);
            lemma_expand_step(self.runs@, self.run as int);
            lemma_group_sum_take(expand(self.runs@), self.pos as int);
            lemma_group_sum_take(expand(self.runs@), self.pos + 1);
        }
        let run: Run<T> = self.runs[self.run];
        let found = ColGroupItem { item: run.value, pos: self.pos, group: self.group };
        let group: usize = self.group + group_of_item(&run.value);
        let next = if self.offset + 1 == run.count {
            RleCursor {
                runs: self.runs,
                run: self.run + 1,
                offset: 0,
                pos: self.pos + 1,
                end: self.end,
                group,
            }
        } else {
            RleCursor {
                runs: self.runs,
                run: self.run,
                offset: self.offset + 1,
                pos: self.pos + 1,
                end: self.end,
                group,
            }
        };
        *self = next;
        Some(found)
    }

    /// The next item with its position, if the walk is not at its end.
    pub fn next(&mut self) -> (r: Option<(usize, Option<T>)>)
        ensures
            final(self).column() == old(self).column(),
            final(self).end() == old(self).end(),
            match r {
                Some((pos, item)) => {
                    &&& old(self).position() < old(self).end()
                    &&& final(self).position() == old(self).position() + 1
                    &&& pos == old(self).position()
                    &&& item == old(self).column()[old(self).position() as int]
                },
                None => old(self).position() == old(self).end() && final(self).position() == old(
                    self,
                ).position(),
            },
    {
        match self.step() {
            Some(found) => Some((found.pos, found.item)),
            None => None,
        }
    }

    /// Passes over `n` items, or over those that are left if they are
    /// fewer; the result is the number passed over.
    pub fn advance_by(&mut self, n: usize) -> (passed: usize)
        ensures
            final(self).column() == old(self).column(),
            final(self).end() == old(self).end(),
            passed == if old(self).position() + n <= old(self).end() {
                n as int
            } else {
                old(self).end() - old(self).position()
            },
            final(self).position() == old(self).position() + passed,
    {
        let mut passed: usize = 0;
        proof {
            use_type_invariant(&*self);
        }
        while passed < n
            invariant
                passed <= n,
                self.column() == old(self).column(),
                self.end() == old(self).end(),
                self.position() == old(self).position() + passed,
                self.position() <= self.end(),
            decreases n - passed,
        {
            match self.step() {
                Some(_) => {
                    passed = passed + 1;
                },
                None => {
                    return passed;
                },
            }
        }
        passed
    }

    /// Another cursor at the same place.
    pub fn clone_at(&self) -> (copy: Self)
        ensures
            copy.column() == self.column(),
            copy.position() == self.position(),
            copy.end() == self.end(),
    {
        proof {
            use_type_invariant(self);
        }
        RleCursor {
            runs: self.runs,
            run: self.run,
            offset: self.offset,
            pos: self.pos,
            end: self.end,
            group: self.group,
        }
    }

    /// The same walk, handing out each item with the total of the group
    /// before it.
    pub fn with_group(self) -> (it: ColGroupIter<'a, CHUNK, T>)
        ensures
            it.column() == self.column(),
            it.position() == self.position(),
            it.end() == self.end(),
    {
        ColGroupIter { cursor: self }
    }
}

/// A walk over a column that hands out each item with the total of the
/// group before it.
#[derive(Debug)]
pub struct ColGroupIter<'a, const CHUNK: usize, T: Packable> {
    cursor: RleCursor<'a, CHUNK, T>,
}

impl<'a, const CHUNK: usize, T: Packable> ColGroupIter<'a, CHUNK, T> {
    /// The items of the whole column.
    pub closed spec fn column(&self) -> Seq<Option<T>> {
        self.cursor.column()
    }

    /// The position of the next item.
    pub closed spec fn position(&self) -> usize {
        self.cursor.position()
    }

    /// The position at which the walk ends.
    pub closed spec fn end(&self) -> usize {
        self.cursor.end()
    }

    /// The next item with its position and the total of the group before
    /// it, if the walk is not at its end.
    pub fn next(&mut self) -> (r: Option<ColGroupItem<T>>)
        ensures
            final(self).column() == old(self).column(),
            final(self).end() == old(self).end(),
            match r {
                Some(found) => {
                    &&& old(self).position() < old(self).end()
                    &&& final(self).position() == old(self).position() + 1
                    &&& found.pos == old(self).position()
                    &&& found.item == old(self).column()[old(self).position() as int]
                    &&& found.group == group_sum(
                        old(self).column().take(old(self).position() as int),
                    )
                },
                None => old(self).position() == old(self).end() && final(self).position() == old(
                    self,
                ).position(),
            },
    {
        self.cursor.step()
    }

    /// Passes over `n` items, or over those that are left if they are
    /// fewer; the result is the number passed over.
    pub fn advance_by(&mut self, n: usize) -> (passed: usize)
        ensures
            final(self).column() == old(self).column(),
            final(self).end() == old(self).end(),
            passed == if old(self).position() + n <= old(self).end() {
                n as int
            } else {
                old(self).end() - old(self).position()
            },
            final(self).position() == old(self).position() + passed,
    {
        self.cursor.advance_by(n)
    }

    /// Another walk at the same place.
    pub fn clone_at(it: &Self) -> (copy: Self)
        ensures
            copy.column() == it.column(),
            copy.position() == it.position(),
            copy.end() == it.end(),
    {
        ColGroupIter { cursor: it.cursor.clone_at() }
    }
}

impl<const CHUNK: usize, T: Packable> ColumnData<CHUNK, T> {
    /// A walk over all the items.
    pub fn iter(&self) -> (it: RleCursor<'_, CHUNK, T>)
        ensures
            it.column() == self@,
            it.position() == 0,
            it.end() == self@.len(),
    {
        proof {
            use_type_invariant(self);
            assert(self.runs@.take(0) =~= Seq::<Run<T>>::empty());
            assert(expand(self.runs@).take(0) =~= Seq::<Option<T>>::empty());
        }
        RleCursor { runs: self.runs.as_slice(), run: 0, offset: 0, pos: 0, end: self.len, group: 0 }
    }

    /// A walk over the items of a range of positions, cut to the items that
    /// there are.
    pub fn iter_range(&self, range: Range<usize>) -> (it: RleCursor<'_, CHUNK, T>)
        ensures
            it.column() == self@,
            it.end() == if range.end <= self@.len() {
                range.end
            } else {
                self@.len() as usize
            },
            it.position() == if range.start <= it.end() {
                range.start
            } else {
                it.end()
            },
    {
        proof {
            use_type_invariant(self);
            assert(self.runs@.take(0) =~= Seq::<Run<T>>::empty());
            assert(expand(self.runs@).take(0) =~= Seq::<Option<T>>::empty());
        }
        let end: usize = if range.end <= self.len {
            range.end
        } else {
            self.len
        };
        let mut it = RleCursor {
            runs: self.runs.as_slice(),
            run: 0,
            offset: 0,
            pos: 0,
            end,
            group: 0,
        };
        it.advance_by(range.start);
        it
    }
}

impl<const CHUNK: usize, T: Packable> ColumnData<CHUNK, T> {
    /// Checks every item of the column against the document: the error of
    /// the first item that fails, if one does.
    pub fn validate(&self, m: &ScanMeta) -> (r: Result<(), PackError>)
        ensures
            match r {
                Ok(()) => forall|i: int|
                    0 <= i < self@.len() ==> T::validated(#[trigger] self@[i], *m) is Ok,
                Err(e) => exists|i: int|
                    {
                        &&& 0 <= i < self@.len()
                        &&& T::validated(#[trigger] self@[i], *m) == Err::<(), PackError>(e)
                        &&& forall|j: int| 0 <= j < i ==> T::validated(#[trigger] self@[j], *m) is Ok
                    },
            },
    {
        proof {
            use_type_invariant(self);
        }
        let mut r: usize = 0;
        assert(self.runs@.take(0) =~= Seq::<Run<T>>::empty());
        while r < self.runs.len()
            invariant
                r <= self.runs.len(),
                packed(self.runs@, CHUNK),
                forall|j: int|
                    0 <= j < expand(self.runs@.take(r as int)).len() ==> T::validated(
                        #[trigger] expand(self.runs@)[j],
                        *m,
                    ) is Ok,
            decreases self.runs.len() - r,
        {
            let run: Run<T> = self.runs[r];
            let ghost start = expand(self.runs@.take(r as int)).len() as int;
            proof {
                lemma_expand_step(self.runs@, r as int);
                lemma_expand_prefix(self.runs@, r + 1);
                assert forall|j: int| start <= j < start + run.count implies #[trigger] expand(
                    self.runs@,
                )[j] == run.value by {
                    lemma_expand_index(self.runs@, r as int, j - start);
                }
            }
            match T::validate(&run.value, m) {
                Ok(()) => {},
                Err(e) => {
                    proof {
                        lemma_expand_index(self.runs@, r as int, 0);
                        assert(T::validated(self@[start], *m) == Err::<(), PackError>(e));
                    }
                    return Err(e);
                },
            }
            proof {
                assert forall|j: int|
                    0 <= j < expand(self.runs@.take(r + 1)).len() implies T::validated(
                    #[trigger] expand(self.runs@)[j],
                    *m,
                ) is Ok by {
                    if j >= start {
                        assert(expand(self.runs@)[j] == run.value);
                    }
                }
            }
            r = r + 1;
        }
        assert(self.runs@.take(r as int) =~= self.runs@);
        Ok(())
    }
}

/// The cursor over a column of value metadata.
pub type MetaCursor<'a> = RleCursor<'a, 64, ValueMeta>;

/// The cursor over a column of actor indices.
pub type ActorCursor<'a> = RleCursor<'a, 64, ActorIdx>;

/// The cursor over a column of actions.
pub type ActionCursor<'a> = RleCursor<'a, 64, Action>;

/// A column of value metadata.
pub type MetaColumn = ColumnData<64, ValueMeta>;

/// A column of actor indices.
pub type ActorColumn = ColumnData<64, ActorIdx>;

/// A column of actions.
pub type ActionColumn = ColumnData<64, Action>;

} // verus!
