//! Reading scalar values from the pair of columns that holds them: the
//! column of metadata words and the column of raw bytes. The running total
//! of the lengths in the first says where each payload starts in the
//! second.

use crate::column::{group_sum, item_group, lemma_group_sum_take, ColGroupIter, MetaColumn};
use crate::meta::ValueMeta;
use crate::types::{
    lemma_meta_length, lemma_meta_round_trip, ReadScalarError, ScalarValue, ScalarView,
    MAX_PAYLOAD_LEN,
};
use std::borrow::Cow;
use vstd::prelude::*;

verus! {

/// The metadata word at a position of the column; where the column holds
/// none, the word of a null value.
pub open spec fn meta_at(metas: Seq<Option<ValueMeta>>, pos: int) -> ValueMeta {
    match metas[pos] {
        Some(m) => m,
        None => ValueMeta(0),
    }
}

/// The payload of the value at a position: the bytes of the raw column from
/// the total of the lengths before the position, as many as the word at the
/// position says.
pub open spec fn payload_at(metas: Seq<Option<ValueMeta>>, raw: Seq<u8>, pos: int) -> Seq<u8> {
    let start = group_sum(metas.take(pos)) as int;
    match metas[pos] {
        Some(m) => raw.subrange(start, start + m.spec_length()),
        None => raw.subrange(start, start),
    }
}

/// What reading the value at a position gives.
pub open spec fn value_at(metas: Seq<Option<ValueMeta>>, raw: Seq<u8>, pos: int) -> Result<
    ScalarView,
    ReadScalarError,
> {
    ScalarView::from_raw(meta_at(metas, pos), payload_at(metas, raw, pos))
}

/// A walk over the values of a pair of columns.
pub struct ValueCursor<'a> {
    metas: ColGroupIter<'a, 64, ValueMeta>,
    raw: &'a [u8],
}

impl<'a> ValueCursor<'a> {
    #[verifier::type_invariant]
    spec fn in_step(self) -> bool {
        &&& group_sum(self.metas.column()) == self.raw@.len()
        &&& self.metas.position() <= self.metas.end() <= self.metas.column().len()
    }

    /// The metadata words of the whole column.
    pub closed spec fn metas(&self) -> Seq<Option<ValueMeta>> {
        self.metas.column()
    }

    /// The bytes of the whole raw column.
    pub closed spec fn raw(&self) -> Seq<u8> {
        self.raw@
    }

    /// The position of the next value.
    pub closed spec fn position(&self) -> usize {
        self.metas.position()
    }

    /// The position at which the walk ends.
    pub closed spec fn end(&self) -> usize {
        self.metas.end()
    }

    /// A walk over all the values of the two columns, if the raw column
    /// has as many bytes as the lengths of the metadata add up to.
    pub fn new(metas: &'a MetaColumn, raw: &'a [u8]) -> (r: Option<Self>)
        ensures
            r is Some <==> group_sum(metas@) == raw@.len(),
            r matches Some(cursor) ==> cursor.metas() == metas@ && cursor.raw() == raw@
                && cursor.position() == 0 && cursor.end() == metas@.len(),
    {
        if metas.group_total() != raw.len() {
            return None;
        }
        let it = metas.iter().with_group();
        Some(ValueCursor { metas: it, raw })
    }

    /// The next value, or the error of reading it, if the walk is not at
    /// its end.
    pub fn next(&mut self) -> (r: Option<Result<ScalarValue<'a>, ReadScalarError>>)
        ensures
            final(self).metas() == old(self).metas(),
            final(self).raw() == old(self).raw(),
            final(self).end() == old(self).end(),
            match r {
                Some(read) => {
                    &&& old(self).position() < old(self).end()
                    &&& final(self).position() == old(self).position() + 1
                    &&& match read {
                        Ok(s) => value_at(
                            old(self).metas(),
                            old(self).raw(),
                            old(self).position() as int,
                        ) == Ok::<ScalarView, ReadScalarError>(s@),
                        Err(e) => value_at(
                            old(self).metas(),
                            old(self).raw(),
                            old(self).position() as int,
                        ) == Err::<ScalarView, ReadScalarError>(e),
                    }
                },
                None => old(self).position() == old(self).end() && final(self).position() == old(
                    self,
                ).position(),
            },
    {
        proof {
            use_type_invariant(&*self);
        }
        let ghost column = self.metas.column();
        let ghost pos = self.metas.position() as int;
        let raw: &'a [u8] = self.raw;
        let mut metas = ColGroupIter::clone_at(&self.metas);
        let found = match metas.next() {
            Some(found) => found,
            None => {
                return None;
            },
        };
        let meta: ValueMeta = match found.item {
            Some(m) => m,
            None => ValueMeta(0),
        };
        let len: usize = match found.item {
            Some(m) => m.length(),
            None => 0,
        };
        proof {
            lemma_group_sum_take(column, pos);
            lemma_group_sum_take(column, pos + 1);
            assert(found.item == column[pos]);
            assert(found.group == group_sum(column.take(pos)));
            assert(item_group(column[pos]) == len);
        }
        let total: usize = raw.len();
        assert(found.group + len <= total);
        let payload: &'a [u8] = vstd::slice::slice_subrange(raw, found.group, found.group + len);
        proof {
            if found.item is None {
                assert(ValueMeta(0).spec_type_code() == crate::meta::ValueType::Null) by {
                    assert(0u64 & 0xF == 0) by (bit_vector);
                }
            }
        }
        let read = if found.item.is_some() {
            ScalarValue::from_raw(meta, payload)
        } else {
            Ok(ScalarValue::Null)
        };
        *self = ValueCursor { metas, raw };
        Some(read)
    }
}

/// Whether a scalar reads back as itself once it is stored: its payload is
/// no longer than a metadata word can say, and its type code, if it is an
/// unknown one, is none of the known codes and fits four bits.
pub open spec fn storable(s: ScalarView) -> bool {
    &&& s.raw_bytes().len() <= MAX_PAYLOAD_LEN
    &&& s.raw_bytes().len() <= usize::MAX
    &&& s matches ScalarView::Unknown { type_code, .. } ==> 10 <= type_code <= 15
}

/// The pair of columns that holds scalar values: the metadata words, and
/// the payloads one after the other.
#[derive(Debug)]
pub struct ValueColumn {
    metas: MetaColumn,
    raw: Vec<u8>,
}

impl ValueColumn {
    #[verifier::type_invariant]
    spec fn in_step(self) -> bool {
        group_sum(self.metas@) == self.raw@.len()
    }

    /// The metadata words.
    pub closed spec fn metas_view(&self) -> Seq<Option<ValueMeta>> {
        self.metas@
    }

    /// The bytes of the payloads.
    pub closed spec fn raw_view(&self) -> Seq<u8> {
        self.raw@
    }

    /// A pair of columns without values.
    pub fn new() -> (col: ValueColumn)
        ensures
            col.metas_view() == Seq::<Option<ValueMeta>>::empty(),
            col.raw_view() == Seq::<u8>::empty(),
    {
        ValueColumn { metas: MetaColumn::new(), raw: Vec::new() }
    }

    /// The number of values.
    pub fn len(&self) -> (n: usize)
        ensures
            n == self.metas_view().len(),
    {
        self.metas.len()
    }

    /// The column of metadata words.
    pub fn metas(&self) -> (metas: &MetaColumn)
        ensures
            metas@ == self.metas_view(),
            group_sum(metas@) == self.raw_view().len(),
    {
        proof {
            use_type_invariant(self);
        }
        &self.metas
    }

    /// The column of raw bytes.
    pub fn raw(&self) -> (raw: &[u8])
        ensures
            raw@ == self.raw_view(),
    {
        self.raw.as_slice()
    }

    /// A walk over the values.
    pub fn iter(&self) -> (cursor: ValueCursor<'_>)
        ensures
            cursor.metas() == self.metas_view(),
            cursor.raw() == self.raw_view(),
            cursor.position() == 0,
            cursor.end() == self.metas_view().len(),
    {
        proof {
            use_type_invariant(self);
        }
        let it = self.metas.iter().with_group();
        ValueCursor { metas: it, raw: self.raw.as_slice() }
    }

    /// Appends a value: its metadata word to the one column and its payload
    /// to the other. Nothing is appended, and the result is `false`, where
    /// the word cannot hold the length of the payload (a payload of more
    /// bytes than sixty bits can count), or the columns have no room left.
    pub fn try_push(&mut self, value: ScalarValue<'_>) -> (done: bool)
        ensures
            done == (value@.raw_bytes().len() <= MAX_PAYLOAD_LEN && old(self).metas_view().len()
                < usize::MAX && old(self).raw_view().len() + value@.raw_bytes().len()
                <= usize::MAX),
            done ==> final(self).metas_view() == old(self).metas_view().push(Some(value@.meta()))
                && final(self).raw_view() == old(self).raw_view() + value@.raw_bytes(),
            !done ==> final(self).metas_view() == old(self).metas_view() && final(self).raw_view()
                == old(self).raw_view(),
    {
        proof {
            use_type_invariant(&*self);
            assert(self.metas@.push(Some(value@.meta())).drop_last() =~= self.metas@);
        }
        let meta: ValueMeta = ValueMeta::from(&value);
        let payload = value.to_raw();
        let len: usize = match &payload {
            Some(Cow::Borrowed(b)) => b.len(),
            Some(Cow::Owned(v)) => v.len(),
            None => 0,
        };
        proof {
            crate::types::lemma_type_code_fits(value@);
            let n = len as u64;
            let code = value@.type_code();
            if n <= MAX_PAYLOAD_LEN {
                lemma_meta_length(value@);
            } else {
                assert(((n << 4) | code) >> 4 < 0x1000_0000_0000_0000) by (bit_vector);
            }
        }
        if meta.length() != len {
            return false;
        }
        let mut taken = ValueColumn::new();
        core::mem::swap(self, &mut taken);
        let ValueColumn { mut metas, mut raw } = taken;
        let total: usize = raw.len();
        let done: bool = metas.try_push(Some(meta));
        if done {
            match &payload {
                Some(Cow::Borrowed(b)) => raw.extend_from_slice(b),
                Some(Cow::Owned(v)) => raw.extend_from_slice(v.as_slice()),
                None => {
                    assert(raw@ =~= raw@ + value@.raw_bytes());
                },
            }
        }
        *self = ValueColumn { metas, raw };
        done
    }
}

/// Appending keeps the columns in step. When a scalar whose payload is no
/// longer than a metadata word can say is appended to a pair of columns
/// that are in step, whatever its type code, the columns are in step again,
/// the payload at its position is its payload, and reading at every
/// position before it gives what it gave.
pub proof fn lemma_push_keeps_step(metas: Seq<Option<ValueMeta>>, raw: Seq<u8>, s: ScalarView)
    requires
        group_sum(metas) == raw.len(),
        s.raw_bytes().len() <= MAX_PAYLOAD_LEN,
        s.raw_bytes().len() <= usize::MAX,
    ensures
        group_sum(metas.push(Some(s.meta()))) == (raw + s.raw_bytes()).len(),
        payload_at(metas.push(Some(s.meta())), raw + s.raw_bytes(), metas.len() as int)
            == s.raw_bytes(),
        forall|i: int|
            0 <= i < metas.len() ==> #[trigger] value_at(
                metas.push(Some(s.meta())),
                raw + s.raw_bytes(),
                i,
            ) == value_at(metas, raw, i),
{
    let longer = metas.push(Some(s.meta()));
    let bytes = raw + s.raw_bytes();
    let n = metas.len() as int;
    lemma_meta_length(s);
    assert(longer.take(n) =~= metas);
    assert(longer.drop_last() =~= metas);
    assert(payload_at(longer, bytes, n) =~= s.raw_bytes());
    assert forall|i: int| 0 <= i < metas.len() implies #[trigger] value_at(longer, bytes, i)
        == value_at(metas, raw, i) by {
        lemma_group_sum_take(metas, i);
        lemma_group_sum_take(metas, i + 1);
        assert(longer.take(i) =~= metas.take(i));
        assert(payload_at(longer, bytes, i) =~= payload_at(metas, raw, i));
    }
}

/// A stored value reads back. When a storable scalar is appended to a
/// pair of columns that are in step, reading at its position gives the
/// scalar.
pub proof fn lemma_push_reads_back(metas: Seq<Option<ValueMeta>>, raw: Seq<u8>, s: ScalarView)
    requires
        group_sum(metas) == raw.len(),
        storable(s),
    ensures
        value_at(metas.push(Some(s.meta())), raw + s.raw_bytes(), metas.len() as int) == Ok::<
            ScalarView,
            ReadScalarError,
        >(s),
{
    lemma_push_keeps_step(metas, raw, s);
    lemma_meta_round_trip(s);
    assert(metas.push(Some(s.meta()))[metas.len() as int] == Some(s.meta()));
}

} // verus!
