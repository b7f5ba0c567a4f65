//! The value-metadata word: a type code in the low four bits and, above
//! them, the byte length of the payload in the raw-bytes column.

use crate::leb::{lemma_uleb_read_bounds, read_unsigned, uleb_read};
use crate::pack::{MaybePackable, PackError, Packable, ScanMeta};
use vstd::prelude::*;

verus! {

/// The type that a value-metadata word names.
#[derive(Debug, Clone, Copy, PartialEq, Eq, Structural)]
pub enum ValueType {
    Null,
    False,
    True,
    Uleb,
    Leb,
    Float,
    String,
    Bytes,
    Counter,
    Timestamp,
    Unknown(u8),
}

impl ValueType {
    /// The type with the given four-bit code.
    pub open spec fn of_code(code: u8) -> ValueType {
        match code {
            0 => ValueType::Null,
            1 => ValueType::False,
            2 => ValueType::True,
            3 => ValueType::Uleb,
            4 => ValueType::Leb,
            5 => ValueType::Float,
            6 => ValueType::String,
            7 => ValueType::Bytes,
            8 => ValueType::Counter,
            9 => ValueType::Timestamp,
            other => ValueType::Unknown(other),
        }
    }
}

/// One entry of the value-metadata column.
#[derive(Debug, Clone, Copy, Default, PartialEq, Eq, PartialOrd, Structural)]
pub struct ValueMeta(pub u64);

impl ValueMeta {
    /// The type named by the low four bits.
    pub open spec fn spec_type_code(self) -> ValueType {
        ValueType::of_code((self.0 & 0xF) as u8)
    }

    /// The byte length held above the low four bits.
    pub open spec fn spec_length(self) -> usize {
        (self.0 >> 4) as usize
    }

    /// The word for a payload of `len` bytes of the type with code `code`.
    pub open spec fn pack(len: u64, code: u64) -> ValueMeta {
        ValueMeta((len << 4) | code)
    }

    /// The type of the value.
    pub fn type_code(&self) -> (t: ValueType)
        ensures
            t == self.spec_type_code(),
    {
        let word: u64 = self.0;
        let low_byte: u8 = (word & 0b0000_1111) as u8;
        assert(low_byte < 16) by (bit_vector)
            requires
                low_byte == (word & 0b0000_1111) as u8,
        ;
        match low_byte {
            0 => ValueType::Null,
            1 => ValueType::False,
            2 => ValueType::True,
            3 => ValueType::Uleb,
            4 => ValueType::Leb,
            5 => ValueType::Float,
            6 => ValueType::String,
            7 => ValueType::Bytes,
            8 => ValueType::Counter,
            9 => ValueType::Timestamp,
            other => ValueType::Unknown(other),
        }
    }

    /// The byte length of the value's payload.
    pub fn length(&self) -> (n: usize)
        ensures
            n == self.spec_length(),
    {
        (self.0 >> 4) as usize
    }
}

/// A word packed from a length below `2^60` and a code below 16 holds both.
pub proof fn lemma_pack_fields(len: u64, code: u64)
    requires
        len < 0x1000_0000_0000_0000,
        code < 16,
    ensures
        ValueMeta::pack(len, code).0 == len * 16 + code,
        ValueMeta::pack(len, code).0 >> 4 == len,
        ValueMeta::pack(len, code).0 & 0xF == code,
{
    assert(((len << 4) | code) == len * 16 + code && ((len << 4) | code) >> 4 == len && ((len << 4)
        | code) & 0xF == code) by (bit_vector)
        requires
            len < 0x1000_0000_0000_0000,
            code < 16,
    ;
}

impl From<u64> for ValueMeta {
    fn from(raw: u64) -> (m: ValueMeta) {
        ValueMeta(raw)
    }
}

impl vstd::std_specs::convert::FromSpecImpl<u64> for ValueMeta {
    open spec fn obeys_from_spec() -> bool {
        true
    }

    open spec fn from_spec(raw: u64) -> ValueMeta {
        ValueMeta(raw)
    }
}

impl Packable for ValueMeta {
    open spec fn unpacked(buf: Seq<u8>) -> Result<(usize, ValueMeta), PackError> {
        match uleb_read(buf, 0) {
            Some((v, n)) => Ok((n as usize, ValueMeta(v as u64))),
            None => Err(PackError::Leb),
        }
    }

    open spec fn validated(val: Option<ValueMeta>, m: ScanMeta) -> Result<(), PackError> {
        Ok(())
    }

    open spec fn group_of(item: ValueMeta) -> usize {
        item.spec_length()
    }

    fn unpack(buff: &[u8]) -> (r: Result<(usize, ValueMeta), PackError>) {
        proof {
            lemma_uleb_read_bounds(buff@, 0);
        }
        let start_len: usize = buff.len();
        match read_unsigned(buff) {
            Ok((val, rest)) => Ok((start_len - rest.len(), ValueMeta(val))),
            Err(_) => Err(PackError::Leb),
        }
    }

    fn validate(val: &Option<ValueMeta>, m: &ScanMeta) -> (r: Result<(), PackError>) {
        Ok(())
    }

    fn group(item: ValueMeta) -> (g: usize) {
        item.length()
    }

    fn same(&self, other: &ValueMeta) -> (b: bool) {
        self.0 == other.0
    }

    fn own(item: ValueMeta) -> (owned: ValueMeta) {
        item
    }
}

impl MaybePackable<ValueMeta> for ValueMeta {
    open spec fn maybe(&self) -> Option<ValueMeta> {
        Some(*self)
    }

    fn maybe_packable(&self) -> (r: Option<ValueMeta>) {
        Some(*self)
    }
}

impl MaybePackable<ValueMeta> for Option<ValueMeta> {
    open spec fn maybe(&self) -> Option<ValueMeta> {
        *self
    }

    fn maybe_packable(&self) -> (r: Option<ValueMeta>) {
        *self
    }
}

} // verus!
