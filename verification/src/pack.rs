//! The packable codec: how one value of a column is read from its bytes and
//! checked against what is known of the document.

use crate::leb::{
    lemma_sleb_read_bounds, lemma_uleb_read_bounds, read_signed, read_unsigned, sleb_read,
    uleb_read,
};
use vstd::prelude::*;

verus! {

/// Why a column could not be decoded.
#[derive(Debug, Clone, PartialEq, Eq)]
pub enum PackError {
    /// The bytes are no LEB128 number that fits 64 bits.
    Leb,
    /// A number was read, but it stands for no value of the column's type:
    /// what was expected, and the number found.
    InvalidValue(&'static str, u64),
    /// An actor index at or past the number of actors: the index, and that
    /// number.
    ActorIndexOutOfRange(u64, usize),
}

/// What a scan knows of the document while it checks a column.
#[derive(Debug, Clone, Copy, PartialEq, Eq)]
pub struct ScanMeta {
    /// How many actors the document has.
    pub actors: usize,
}

/// A value that a column can hold.
pub trait Packable: Sized + Copy {
    /// What [`Packable::unpack`] returns on these bytes.
    spec fn unpacked(buf: Seq<u8>) -> Result<(usize, Self), PackError>;

    /// What [`Packable::validate`] returns.
    spec fn validated(val: Option<Self>, m: ScanMeta) -> Result<(), PackError>;

    /// What a value adds to the running total of its column group.
    spec fn group_of(item: Self) -> usize;

    /// Reads one value from the front of `buff`: the count of bytes it took,
    /// and the value.
    fn unpack(buff: &[u8]) -> (r: Result<(usize, Self), PackError>)
        ensures
            r == Self::unpacked(buff@),
    ;

    /// Checks a value of the column against the document.
    fn validate(val: &Option<Self>, m: &ScanMeta) -> (r: Result<(), PackError>)
        ensures
            r == Self::validated(*val, *m),
    ;

    /// What the value adds to the running total of its column group.
    fn group(item: Self) -> (g: usize)
        ensures
            g == Self::group_of(item),
    ;

    /// Whether the two values are the same.
    fn same(&self, other: &Self) -> (b: bool)
        ensures
            b == (*self == *other),
    ;

    /// The value as the column keeps it: the value itself, which borrows
    /// nothing.
    fn own(item: Self) -> (owned: Self)
        ensures
            owned == item,
    ;
}

/// What can be written into a column of `T`: a value, or none.
pub trait MaybePackable<T: Packable> {
    /// The value, if there is one.
    spec fn maybe(&self) -> Option<T>;

    /// The value, if there is one.
    fn maybe_packable(&self) -> (r: Option<T>)
        ensures
            r == self.maybe(),
    ;
}

/// What reading an unsigned number from the front of `buf` gives.
pub open spec fn unpacked_u64(buf: Seq<u8>) -> Result<(usize, u64), PackError> {
    match uleb_read(buf, 0) {
        Some((v, n)) => Ok((n as usize, v as u64)),
        None => Err(PackError::Leb),
    }
}

/// What reading a signed number from the front of `buf` gives.
pub open spec fn unpacked_i64(buf: Seq<u8>) -> Result<(usize, i64), PackError> {
    match sleb_read(buf, 0) {
        Some((v, n)) => Ok((n as usize, v as i64)),
        None => Err(PackError::Leb),
    }
}

impl Packable for u64 {
    open spec fn unpacked(buf: Seq<u8>) -> Result<(usize, u64), PackError> {
        unpacked_u64(buf)
    }

    open spec fn validated(val: Option<u64>, m: ScanMeta) -> Result<(), PackError> {
        Ok(())
    }

    open spec fn group_of(item: u64) -> usize {
        0
    }

    fn unpack(buff: &[u8]) -> (r: Result<(usize, u64), PackError>) {
        proof {
            lemma_uleb_read_bounds(buff@, 0);
        }
        match read_unsigned(buff) {
            Ok((val, rest)) => Ok((buff.len() - rest.len(), val)),
            Err(_) => Err(PackError::Leb),
        }
    }

    fn validate(val: &Option<u64>, m: &ScanMeta) -> (r: Result<(), PackError>) {
        Ok(())
    }

    fn group(item: u64) -> (g: usize) {
        0
    }

    fn same(&self, other: &u64) -> (b: bool) {
        *self == *other
    }

    fn own(item: u64) -> (owned: u64) {
        item
    }
}

impl MaybePackable<u64> for u64 {
    open spec fn maybe(&self) -> Option<u64> {
        Some(*self)
    }

    fn maybe_packable(&self) -> (r: Option<u64>) {
        Some(*self)
    }
}

impl MaybePackable<u64> for Option<u64> {
    open spec fn maybe(&self) -> Option<u64> {
        *self
    }

    fn maybe_packable(&self) -> (r: Option<u64>) {
        *self
    }
}

impl Packable for i64 {
    open spec fn unpacked(buf: Seq<u8>) -> Result<(usize, i64), PackError> {
        unpacked_i64(buf)
    }

    open spec fn validated(val: Option<i64>, m: ScanMeta) -> Result<(), PackError> {
        Ok(())
    }

    open spec fn group_of(item: i64) -> usize {
        0
    }

    fn unpack(buff: &[u8]) -> (r: Result<(usize, i64), PackError>) {
        proof {
            lemma_sleb_read_bounds(buff@, 0);
        }
        match read_signed(buff) {
            Ok((val, rest)) => Ok((buff.len() - rest.len(), val)),
            Err(_) => Err(PackError::Leb),
        }
    }

    fn validate(val: &Option<i64>, m: &ScanMeta) -> (r: Result<(), PackError>) {
        Ok(())
    }

    fn group(item: i64) -> (g: usize) {
        0
    }

    fn same(&self, other: &i64) -> (b: bool) {
        *self == *other
    }

    fn own(item: i64) -> (owned: i64) {
        item
    }
}

impl MaybePackable<i64> for i64 {
    open spec fn maybe(&self) -> Option<i64> {
        Some(*self)
    }

    fn maybe_packable(&self) -> (r: Option<i64>) {
        Some(*self)
    }
}

impl MaybePackable<i64> for Option<i64> {
    open spec fn maybe(&self) -> Option<i64> {
        *self
    }

    fn maybe_packable(&self) -> (r: Option<i64>) {
        *self
    }
}

} // verus!
