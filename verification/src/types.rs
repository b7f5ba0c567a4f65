//! The typed model of an operation's parts: actors, actions, scalar values,
//! keys, and how they are read from and written to the columns.

use crate::leb::{
    decode_sleb, decode_uleb, lebsize, lemma_pow128_values, lemma_sleb_round_trip,
    lemma_uleb_round_trip, sleb_bytes, sleb_read, uleb_bytes, uleb_read, ulebsize, write_signed,
    write_unsigned,
};
use crate::ids::ElemId;
use crate::meta::{lemma_pack_fields, ValueMeta, ValueType};
use crate::owned::{OwnedMarkData, OwnedOpType, OwnedScalarValue, OwnedValue};
use crate::pack::{MaybePackable, PackError, Packable, ScanMeta};
use std::borrow::Cow;
use vstd::bytes::{spec_u64_from_le_bytes, spec_u64_to_le_bytes, u64_from_le_bytes, u64_to_le_bytes};
use vstd::prelude::*;
use vstd::utf8::{decode_utf8, encode_utf8, valid_utf8};

verus! {

/// An index into the list of actors that the document holds.
#[derive(Debug, Clone, Copy, Default, PartialEq, Eq, PartialOrd, Structural)]
pub struct ActorIdx(pub u64);

impl From<usize> for ActorIdx {
    fn from(val: usize) -> (a: ActorIdx) {
        ActorIdx(val as u64)
    }
}

impl vstd::std_specs::convert::FromSpecImpl<usize> for ActorIdx {
    open spec fn obeys_from_spec() -> bool {
        true
    }

    open spec fn from_spec(val: usize) -> ActorIdx {
        ActorIdx(val as u64)
    }
}

impl From<u64> for ActorIdx {
    fn from(val: u64) -> (a: ActorIdx) {
        ActorIdx(val)
    }
}

impl vstd::std_specs::convert::FromSpecImpl<u64> for ActorIdx {
    open spec fn obeys_from_spec() -> bool {
        true
    }

    open spec fn from_spec(val: u64) -> ActorIdx {
        ActorIdx(val)
    }
}

impl From<ActorIdx> for u64 {
    fn from(val: ActorIdx) -> (n: u64) {
        val.0
    }
}

impl vstd::std_specs::convert::FromSpecImpl<ActorIdx> for u64 {
    open spec fn obeys_from_spec() -> bool {
        true
    }

    open spec fn from_spec(val: ActorIdx) -> u64 {
        val.0
    }
}

impl From<ActorIdx> for usize {
    fn from(val: ActorIdx) -> (n: usize) {
        val.0 as usize
    }
}

impl vstd::std_specs::convert::FromSpecImpl<ActorIdx> for usize {
    open spec fn obeys_from_spec() -> bool {
        true
    }

    open spec fn from_spec(val: ActorIdx) -> usize {
        val.0 as usize
    }
}

/// What an operation does, as the action column stores it.
#[derive(Debug, Clone, Copy, Default, PartialEq, Eq, PartialOrd, Structural)]
pub enum Action {
    #[default]
    MakeMap,
    MakeList,
    MakeText,
    Put,
    Delete,
    Increment,
    MakeTable,
    Mark,
}

/// What the action column expects of a number.
pub const VALID_ACTION: &'static str = "valid action (integer between 0 and 7)";

impl Action {
    /// The wire code of the action.
    pub open spec fn code(self) -> u64 {
        match self {
            Action::MakeMap => 0,
            Action::Put => 1,
            Action::MakeList => 2,
            Action::Delete => 3,
            Action::MakeText => 4,
            Action::Increment => 5,
            Action::MakeTable => 6,
            Action::Mark => 7,
        }
    }

    /// The action with the given wire code, if there is one.
    pub open spec fn of_code(code: u64) -> Option<Action> {
        match code {
            0 => Some(Action::MakeMap),
            1 => Some(Action::Put),
            2 => Some(Action::MakeList),
            3 => Some(Action::Delete),
            4 => Some(Action::MakeText),
            5 => Some(Action::Increment),
            6 => Some(Action::MakeTable),
            7 => Some(Action::Mark),
            _ => None,
        }
    }

    /// The short name under which the action is shown.
    pub open spec fn spec_name(self) -> Seq<char> {
        match self {
            Action::MakeMap => "MAP"@,
            Action::MakeList => "LST"@,
            Action::MakeText => "TXT"@,
            Action::Put => "SET"@,
            Action::Delete => "DEL"@,
            Action::Increment => "INC"@,
            Action::MakeTable => "TBL"@,
            Action::Mark => "MRK"@,
        }
    }

    /// The short name under which the action is shown.
    pub fn name(&self) -> (s: &'static str)
        ensures
            s@ == self.spec_name(),
    {
        match self {
            Action::MakeMap => "MAP",
            Action::MakeList => "LST",
            Action::MakeText => "TXT",
            Action::Put => "SET",
            Action::Delete => "DEL",
            Action::Increment => "INC",
            Action::MakeTable => "TBL",
            Action::Mark => "MRK",
        }
    }

    /// The action with the given wire code; any code above 7 is an
    /// `InvalidValue` error that carries it.
    pub fn from_code(code: u64) -> (r: Result<Action, PackError>)
        ensures
            r == match Action::of_code(code) {
                Some(a) => Ok::<Action, PackError>(a),
                None => Err(PackError::InvalidValue(VALID_ACTION, code)),
            },
    {
        match code {
            0 => Ok(Action::MakeMap),
            1 => Ok(Action::Put),
            2 => Ok(Action::MakeList),
            3 => Ok(Action::Delete),
            4 => Ok(Action::MakeText),
            5 => Ok(Action::Increment),
            6 => Ok(Action::MakeTable),
            7 => Ok(Action::Mark),
            other => Err(PackError::InvalidValue(VALID_ACTION, other)),
        }
    }
}

impl From<Action> for u64 {
    fn from(val: Action) -> (n: u64) {
        match val {
            Action::MakeMap => 0,
            Action::Put => 1,
            Action::MakeList => 2,
            Action::Delete => 3,
            Action::MakeText => 4,
            Action::Increment => 5,
            Action::MakeTable => 6,
            Action::Mark => 7,
        }
    }
}

impl vstd::std_specs::convert::FromSpecImpl<Action> for u64 {
    open spec fn obeys_from_spec() -> bool {
        true
    }

    open spec fn from_spec(val: Action) -> u64 {
        val.code()
    }
}

impl Packable for Action {
    open spec fn unpacked(buf: Seq<u8>) -> Result<(usize, Action), PackError> {
        match uleb_read(buf, 0) {
            Some((v, n)) => match Action::of_code(v as u64) {
                Some(a) => Ok((n as usize, a)),
                None => Err(PackError::InvalidValue(VALID_ACTION, v as u64)),
            },
            None => Err(PackError::Leb),
        }
    }

    open spec fn validated(val: Option<Action>, m: ScanMeta) -> Result<(), PackError> {
        Ok(())
    }

    open spec fn group_of(item: Action) -> usize {
        0
    }

    fn unpack(buff: &[u8]) -> (r: Result<(usize, Action), PackError>) {
        let (len, result) = match u64::unpack(buff) {
            Ok(read) => read,
            Err(e) => {
                return Err(e);
            },
        };
        match Action::from_code(result) {
            Ok(action) => Ok((len, action)),
            Err(e) => Err(e),
        }
    }

    fn validate(val: &Option<Action>, m: &ScanMeta) -> (r: Result<(), PackError>) {
        Ok(())
    }

    fn group(item: Action) -> (g: usize) {
        0
    }

    fn same(&self, other: &Action) -> (b: bool) {
        *self == *other
    }

    fn own(item: Action) -> (owned: Action) {
        item
    }
}

impl MaybePackable<Action> for Action {
    open spec fn maybe(&self) -> Option<Action> {
        Some(*self)
    }

    fn maybe_packable(&self) -> (r: Option<Action>) {
        Some(*self)
    }
}

impl MaybePackable<Action> for Option<Action> {
    open spec fn maybe(&self) -> Option<Action> {
        *self
    }

    fn maybe_packable(&self) -> (r: Option<Action>) {
        *self
    }
}

impl Packable for ActorIdx {
    open spec fn unpacked(buf: Seq<u8>) -> Result<(usize, ActorIdx), PackError> {
        match uleb_read(buf, 0) {
            Some((v, n)) => Ok((n as usize, ActorIdx(v as u64))),
            None => Err(PackError::Leb),
        }
    }

    open spec fn validated(val: Option<ActorIdx>, m: ScanMeta) -> Result<(), PackError> {
        match val {
            Some(ActorIdx(a)) if a >= m.actors => Err(PackError::ActorIndexOutOfRange(a, m.actors)),
            _ => Ok(()),
        }
    }

    open spec fn group_of(item: ActorIdx) -> usize {
        0
    }

    fn unpack(buff: &[u8]) -> (r: Result<(usize, ActorIdx), PackError>) {
        match u64::unpack(buff) {
            Ok((len, result)) => Ok((len, ActorIdx::from(result))),
            Err(e) => Err(e),
        }
    }

    fn validate(val: &Option<ActorIdx>, m: &ScanMeta) -> (r: Result<(), PackError>) {
        if let Some(ActorIdx(a)) = val {
            if *a >= m.actors as u64 {
                return Err(PackError::ActorIndexOutOfRange(*a, m.actors));
            }
        }
        Ok(())
    }

    fn group(item: ActorIdx) -> (g: usize) {
        0
    }

    fn same(&self, other: &ActorIdx) -> (b: bool) {
        self.0 == other.0
    }

    fn own(item: ActorIdx) -> (owned: ActorIdx) {
        item
    }
}

impl MaybePackable<ActorIdx> for ActorIdx {
    open spec fn maybe(&self) -> Option<ActorIdx> {
        Some(*self)
    }

    fn maybe_packable(&self) -> (r: Option<ActorIdx>) {
        Some(*self)
    }
}

impl MaybePackable<ActorIdx> for Option<ActorIdx> {
    open spec fn maybe(&self) -> Option<ActorIdx> {
        *self
    }

    fn maybe_packable(&self) -> (r: Option<ActorIdx>) {
        *self
    }
}

/// The kind of an object that an operation makes.
#[derive(Debug, Clone, Copy, PartialEq, Eq, Structural)]
pub enum ObjType {
    MapObj,
    List,
    Text,
    Table,
}

/// Why the payload of a scalar could not be read.
#[derive(Debug, Clone, Copy, PartialEq, Eq, Structural)]
pub enum ReadScalarError {
    /// The payload of an unsigned integer is no unsigned LEB128 number.
    Uleb,
    /// The payload of a signed integer, a counter or a timestamp is no
    /// signed LEB128 number.
    Leb,
    /// The payload of a float has not eight bytes.
    Float,
    /// The payload of a text is no UTF-8.
    Str,
}

/// Reads the unsigned LEB128 number at the front of `input`; what follows
/// the number is not looked at. Where there is no such number the error is
/// `Uleb`.
pub fn parse_uleb128(input: &[u8]) -> (r: Result<u64, ReadScalarError>)
    ensures
        r == match uleb_read(input@, 0) {
            Some((v, n)) => Ok::<u64, ReadScalarError>(v as u64),
            None => Err(ReadScalarError::Uleb),
        },
{
    match decode_uleb(input) {
        Some((v, _)) => Ok(v),
        None => Err(ReadScalarError::Uleb),
    }
}

/// Reads the signed LEB128 number at the front of `input`; what follows the
/// number is not looked at. Where there is no such number the error is
/// `Leb`.
pub fn parse_leb128(input: &[u8]) -> (r: Result<i64, ReadScalarError>)
    ensures
        r == match sleb_read(input@, 0) {
            Some((v, n)) => Ok::<i64, ReadScalarError>(v as i64),
            None => Err(ReadScalarError::Leb),
        },
{
    match decode_sleb(input) {
        Some((v, _)) => Ok(v),
        None => Err(ReadScalarError::Leb),
    }
}

/// A scalar value as a mathematical object: what a [`ScalarValue`] holds,
/// with its borrowed bytes and text as sequences.
pub enum ScalarView {
    Bytes(Seq<u8>),
    Str(Seq<char>),
    Int(i64),
    Uint(u64),
    F64(u64),
    Counter(i64),
    Timestamp(i64),
    Boolean(bool),
    Unknown { type_code: u8, bytes: Seq<u8> },
    Null,
}

impl ScalarView {
    /// The type code under which the value is stored: one of the ten known
    /// codes, or the low four bits of the code of an unknown value.
    pub open spec fn type_code(self) -> u64 {
        match self {
            ScalarView::Null => 0,
            ScalarView::Boolean(false) => 1,
            ScalarView::Boolean(true) => 2,
            ScalarView::Uint(_) => 3,
            ScalarView::Int(_) => 4,
            ScalarView::F64(_) => 5,
            ScalarView::Str(_) => 6,
            ScalarView::Bytes(_) => 7,
            ScalarView::Counter(_) => 8,
            ScalarView::Timestamp(_) => 9,
            ScalarView::Unknown { type_code, .. } => (type_code & 0xF) as u64,
        }
    }

    /// The payload of the value in the raw-bytes column; null and the
    /// booleans have none.
    pub open spec fn raw(self) -> Option<Seq<u8>> {
        match self {
            ScalarView::Bytes(b) => Some(b),
            ScalarView::Str(s) => Some(encode_utf8(s)),
            ScalarView::Null => None,
            ScalarView::Boolean(_) => None,
            ScalarView::Uint(i) => Some(uleb_bytes(i as nat)),
            ScalarView::Int(i) | ScalarView::Counter(i) | ScalarView::Timestamp(i) => Some(
                sleb_bytes(i as int),
            ),
            ScalarView::F64(bits) => Some(spec_u64_to_le_bytes(bits)),
            ScalarView::Unknown { bytes, .. } => Some(bytes),
        }
    }

    /// The payload as bytes, empty where there is none.
    pub open spec fn raw_bytes(self) -> Seq<u8> {
        match self.raw() {
            Some(b) => b,
            None => Seq::empty(),
        }
    }

    /// The metadata word of the value: the length of its payload above its
    /// type code.
    pub open spec fn meta(self) -> ValueMeta {
        ValueMeta::pack(self.raw_bytes().len() as u64, self.type_code())
    }

    /// Whether the payload of the value is borrowed from the value rather
    /// than built.
    pub open spec fn raw_is_borrowed(self) -> bool {
        self is Bytes || self is Str || self is Unknown
    }

    /// What `from_raw` gives for a metadata word and the payload that
    /// belongs to it.
    pub open spec fn from_raw(meta: ValueMeta, raw: Seq<u8>) -> Result<
        ScalarView,
        ReadScalarError,
    > {
        match meta.spec_type_code() {
            ValueType::Null => Ok(ScalarView::Null),
            ValueType::False => Ok(ScalarView::Boolean(false)),
            ValueType::True => Ok(ScalarView::Boolean(true)),
            ValueType::Uleb => match uleb_read(raw, 0) {
                Some((v, n)) => Ok(ScalarView::Uint(v as u64)),
                None => Err(ReadScalarError::Uleb),
            },
            ValueType::Leb => match sleb_read(raw, 0) {
                Some((v, n)) => Ok(ScalarView::Int(v as i64)),
                None => Err(ReadScalarError::Leb),
            },
            ValueType::Float => if raw.len() == 8 {
                Ok(ScalarView::F64(spec_u64_from_le_bytes(raw)))
            } else {
                Err(ReadScalarError::Float)
            },
            ValueType::String => if valid_utf8(raw) {
                Ok(ScalarView::Str(decode_utf8(raw)))
            } else {
                Err(ReadScalarError::Str)
            },
            ValueType::Bytes => Ok(ScalarView::Bytes(raw)),
            ValueType::Counter => match sleb_read(raw, 0) {
                Some((v, n)) => Ok(ScalarView::Counter(v as i64)),
                None => Err(ReadScalarError::Leb),
            },
            ValueType::Timestamp => match sleb_read(raw, 0) {
                Some((v, n)) => Ok(ScalarView::Timestamp(v as i64)),
                None => Err(ReadScalarError::Leb),
            },
            ValueType::Unknown(code) => Ok(ScalarView::Unknown { type_code: code, bytes: raw }),
        }
    }
}

/// A scalar value that borrows its bytes and text from the columns. A float
/// is held as the 64 bits of its IEEE 754 form. Of the type code of an
/// unknown value a metadata word keeps the low four bits.
#[derive(Debug, Clone, Copy, PartialEq)]
pub enum ScalarValue<'a> {
    Bytes(&'a [u8]),
    Str(&'a str),
    Int(i64),
    Uint(u64),
    F64(u64),
    Counter(i64),
    Timestamp(i64),
    Boolean(bool),
    Unknown { type_code: u8, bytes: &'a [u8] },
    Null,
}

impl<'a> View for ScalarValue<'a> {
    type V = ScalarView;

    open spec fn view(&self) -> ScalarView {
        match *self {
            ScalarValue::Bytes(b) => ScalarView::Bytes(b@),
            ScalarValue::Str(s) => ScalarView::Str(s@),
            ScalarValue::Int(i) => ScalarView::Int(i),
            ScalarValue::Uint(i) => ScalarView::Uint(i),
            ScalarValue::F64(bits) => ScalarView::F64(bits),
            ScalarValue::Counter(i) => ScalarView::Counter(i),
            ScalarValue::Timestamp(i) => ScalarView::Timestamp(i),
            ScalarValue::Boolean(b) => ScalarView::Boolean(b),
            ScalarValue::Unknown { type_code, bytes } => ScalarView::Unknown {
                type_code,
                bytes: bytes@,
            },
            ScalarValue::Null => ScalarView::Null,
        }
    }
}

/// `std::str::from_utf8`: the text that `raw` encodes, if it is valid UTF-8,
/// and `None` if it is not. Nothing of this is proved.
#[verifier::external_body]
pub(crate) fn str_from_utf8<'a>(raw: &'a [u8]) -> (r: Option<&'a str>)
    ensures
        r is Some <==> valid_utf8(raw@),
        r is Some ==> encode_utf8(r.unwrap()@) == raw@,
{
    std::str::from_utf8(raw).ok()
}

impl<'a> ScalarValue<'a> {
    /// Rebuilds a scalar from its metadata word and the payload that the
    /// word measures.
    pub fn from_raw(meta: ValueMeta, raw: &'a [u8]) -> (r: Result<Self, ReadScalarError>)
        requires
            raw@.len() == meta.spec_length(),
        ensures
            match r {
                Ok(s) => ScalarView::from_raw(meta, raw@) == Ok::<ScalarView, ReadScalarError>(s@),
                Err(e) => ScalarView::from_raw(meta, raw@) == Err::<ScalarView, ReadScalarError>(e),
            },
    {
        match meta.type_code() {
            ValueType::Null => Ok(ScalarValue::Null),
            ValueType::False => Ok(ScalarValue::Boolean(false)),
            ValueType::True => Ok(ScalarValue::Boolean(true)),
            ValueType::Uleb => match parse_uleb128(raw) {
                Ok(v) => Ok(ScalarValue::Uint(v)),
                Err(e) => Err(e),
            },
            ValueType::Leb => match parse_leb128(raw) {
                Ok(v) => Ok(ScalarValue::Int(v)),
                Err(e) => Err(e),
            },
            ValueType::Float => {
                if raw.len() != 8 {
                    return Err(ReadScalarError::Float);
                }
                Ok(ScalarValue::F64(u64_from_le_bytes(raw)))
            },
            ValueType::String => match str_from_utf8(raw) {
                Some(s) => {
                    proof {
                        vstd::utf8::encode_utf8_decode_utf8(s@);
                    }
                    Ok(ScalarValue::Str(s))
                },
                None => Err(ReadScalarError::Str),
            },
            ValueType::Bytes => Ok(ScalarValue::Bytes(raw)),
            ValueType::Counter => match parse_leb128(raw) {
                Ok(v) => Ok(ScalarValue::Counter(v)),
                Err(e) => Err(e),
            },
            ValueType::Timestamp => match parse_leb128(raw) {
                Ok(v) => Ok(ScalarValue::Timestamp(v)),
                Err(e) => Err(e),
            },
            ValueType::Unknown(code) => Ok(ScalarValue::Unknown { type_code: code, bytes: raw }),
        }
    }

    /// The payload of the value for the raw-bytes column: borrowed for
    /// bytes, text and unknown values, built for numbers, absent for null
    /// and the booleans.
    pub fn to_raw(self) -> (r: Option<Cow<'a, [u8]>>)
        ensures
            match r {
                Some(c) => self@.raw() == Some(c@),
                None => self@.raw() is None,
            },
            r matches Some(c) ==> (c is Borrowed <==> self@.raw_is_borrowed()),
    {
        match self {
            ScalarValue::Bytes(b) => Some(Cow::Borrowed(b)),
            ScalarValue::Str(s) => Some(Cow::Borrowed(s.as_bytes())),
            ScalarValue::Null => None,
            ScalarValue::Boolean(_) => None,
            ScalarValue::Uint(i) => {
                let mut out: Vec<u8> = Vec::new();
                write_unsigned(&mut out, i);
                assert(out@ =~= uleb_bytes(i as nat));
                Some(Cow::Owned(out))
            },
            ScalarValue::Int(i) | ScalarValue::Counter(i) | ScalarValue::Timestamp(i) => {
                let mut out: Vec<u8> = Vec::new();
                write_signed(&mut out, i);
                assert(out@ =~= sleb_bytes(i as int));
                Some(Cow::Owned(out))
            },
            ScalarValue::F64(bits) => {
                let out: Vec<u8> = u64_to_le_bytes(bits);
                Some(Cow::Owned(out))
            },
            ScalarValue::Unknown { type_code: _, bytes } => Some(Cow::Borrowed(bytes)),
        }
    }
}

impl<'a> From<&'a ScalarValue<'a>> for ValueMeta {
    fn from(p: &'a ScalarValue<'a>) -> (m: ValueMeta) {
        proof {
            vstd::bytes::lemma_auto_spec_u64_to_from_le_bytes();
            assert((0u64 << 4) | 0 == 0 && (0u64 << 4) | 1 == 1 && (0u64 << 4) | 2 == 2)
                by (bit_vector);
        }
        match p {
            ScalarValue::Uint(i) => ValueMeta((ulebsize(*i) << 4) | 3),
            ScalarValue::Int(i) => ValueMeta((lebsize(*i) << 4) | 4),
            ScalarValue::Null => ValueMeta(0),
            ScalarValue::Boolean(b) => ValueMeta(
                match b {
                    false => 1,
                    true => 2,
                },
            ),
            ScalarValue::Timestamp(i) => ValueMeta((lebsize(*i) << 4) | 9),
            ScalarValue::F64(_) => ValueMeta((8 << 4) | 5),
            ScalarValue::Counter(i) => ValueMeta((lebsize(*i) << 4) | 8),
            ScalarValue::Str(s) => ValueMeta(((s.as_bytes().len() as u64) << 4) | 6),
            ScalarValue::Bytes(b) => ValueMeta(((b.len() as u64) << 4) | 7),
            ScalarValue::Unknown { type_code, bytes } => {
                ValueMeta(((bytes.len() as u64) << 4) | ((*type_code & 0xF) as u64))
            },
        }
    }
}

impl<'a> vstd::std_specs::convert::FromSpecImpl<&'a ScalarValue<'a>> for ValueMeta {
    open spec fn obeys_from_spec() -> bool {
        true
    }

    open spec fn from_spec(p: &'a ScalarValue<'a>) -> ValueMeta {
        p@.meta()
    }
}

/// The largest payload length that a metadata word can hold beside its
/// type code.
pub const MAX_PAYLOAD_LEN: u64 = 0x0FFF_FFFF_FFFF_FFFF;

/// The type code of every scalar fits the four bits that a metadata word
/// has for it.
pub proof fn lemma_type_code_fits(s: ScalarView)
    ensures
        s.type_code() < 16,
{
    match s {
        ScalarView::Unknown { type_code, .. } => {
            assert((type_code & 0xF) < 16) by (bit_vector);
        },
        _ => {},
    }
}

/// Metadata length. For every scalar whose payload length fits the sixty
/// bits of the word (and the machine's `usize`), whatever its type code:
/// the word made for the scalar holds the length of its payload, and the
/// type code of the scalar.
pub proof fn lemma_meta_length(s: ScalarView)
    requires
        s.raw_bytes().len() <= MAX_PAYLOAD_LEN,
        s.raw_bytes().len() <= usize::MAX,
    ensures
        s.meta().spec_length() == s.raw_bytes().len(),
        s.meta().0 & 0xF == s.type_code(),
{
    lemma_type_code_fits(s);
    lemma_pack_fields(s.raw_bytes().len() as u64, s.type_code());
}

/// Metadata round trip. For every scalar whose payload length fits the
/// sixty bits of the word (and the machine's `usize`), and whose type code,
/// if it is an unknown one, is none of the ten known codes and fits four
/// bits: the word made for the scalar holds the length of its payload, and
/// the word and the payload read back as the scalar.
pub proof fn lemma_meta_round_trip(s: ScalarView)
    requires
        s.raw_bytes().len() <= MAX_PAYLOAD_LEN,
        s.raw_bytes().len() <= usize::MAX,
        s matches ScalarView::Unknown { type_code, .. } ==> 10 <= type_code <= 15,
    ensures
        s.meta().spec_length() == s.raw_bytes().len(),
        ScalarView::from_raw(s.meta(), s.raw_bytes()) == Ok::<ScalarView, ReadScalarError>(s),
{
    lemma_meta_length(s);
    lemma_pow128_values();
    vstd::bytes::lemma_auto_spec_u64_to_from_le_bytes();
    let raw = s.raw_bytes();
    match s {
        ScalarView::Uint(i) => {
            lemma_uleb_round_trip(i as nat, Seq::empty(), 0);
            assert(uleb_bytes(i as nat) + Seq::<u8>::empty() =~= raw);
        },
        ScalarView::Int(i) | ScalarView::Counter(i) | ScalarView::Timestamp(i) => {
            lemma_sleb_round_trip(i as int, Seq::empty(), 0);
            assert(sleb_bytes(i as int) + Seq::<u8>::empty() =~= raw);
        },
        ScalarView::Str(chars) => {
            vstd::utf8::encode_utf8_valid_utf8(chars);
            vstd::utf8::encode_utf8_decode_utf8(chars);
        },
        ScalarView::Unknown { type_code, .. } => {
            assert(type_code & 0xF == type_code) by (bit_vector)
                requires
                    type_code <= 15,
            ;
        },
        _ => {},
    }
}

/// An unknown value whose code does not fit four bits reads back with the
/// low four bits of its code, if those are none of the known codes, and
/// with its bytes.
pub proof fn lemma_unknown_reads_back_masked(type_code: u8, bytes: Seq<u8>)
    requires
        bytes.len() <= MAX_PAYLOAD_LEN,
        bytes.len() <= usize::MAX,
        10 <= type_code & 0xF,
    ensures
        ScalarView::from_raw(
            (ScalarView::Unknown { type_code, bytes }).meta(),
            bytes,
        ) == Ok::<ScalarView, ReadScalarError>(
            (ScalarView::Unknown { type_code: type_code & 0xF, bytes }),
        ),
{
    let s = ScalarView::Unknown { type_code, bytes };
    lemma_meta_length(s);
    assert((type_code & 0xF) < 16) by (bit_vector);
}

/// Action codes. Every action has a code from 0 to 7 and is the action of
/// that code; every code from 0 to 7 is the code of its action; and the
/// encoding of an action's code, whatever follows it, unpacks as one byte
/// and that action.
pub proof fn lemma_action_code_bijection(a: Action, code: u64, tail: Seq<u8>)
    ensures
        a.code() <= 7,
        Action::of_code(a.code()) == Some(a),
        Action::of_code(code) is Some <==> code <= 7,
        Action::of_code(code) matches Some(b) ==> b.code() == code,
        Action::unpacked(uleb_bytes(a.code() as nat) + tail) == Ok::<(usize, Action), PackError>(
            (1usize, a),
        ),
{
    lemma_pow128_values();
    lemma_uleb_round_trip(a.code() as nat, tail, 0);
}

/// Actor validation. An index at or past the number of actors is refused
/// with that index and that number; an index below it, and an absent
/// index, pass.
pub proof fn lemma_actor_validation(idx: u64, m: ScanMeta)
    ensures
        idx >= m.actors ==> ActorIdx::validated(Some(ActorIdx(idx)), m) == Err::<(), PackError>(
            PackError::ActorIndexOutOfRange(idx, m.actors),
        ),
        idx < m.actors ==> ActorIdx::validated(Some(ActorIdx(idx)), m) == Ok::<(), PackError>(()),
        ActorIdx::validated(None, m) == Ok::<(), PackError>(()),
{
}

/// Whether two byte slices hold the same bytes.
pub fn bytes_equal(a: &[u8], b: &[u8]) -> (same: bool)
    ensures
        same == (a@ == b@),
{
    if a.len() != b.len() {
        return false;
    }
    let mut i: usize = 0;
    while i < a.len()
        invariant
            i <= a.len(),
            a.len() == b.len(),
            forall|j: int| 0 <= j < i ==> a@[j] == b@[j],
        decreases a.len() - i,
    {
        if a[i] != b[i] {
            return false;
        }
        i = i + 1;
    }
    assert(a@ =~= b@);
    true
}

/// Whether two texts hold the same characters.
pub fn strs_equal(a: &str, b: &str) -> (same: bool)
    ensures
        same == (a@ == b@),
{
    proof {
        vstd::utf8::encode_utf8_decode_utf8(a@);
        vstd::utf8::encode_utf8_decode_utf8(b@);
    }
    bytes_equal(a.as_bytes(), b.as_bytes())
}

/// A key as a mathematical object: the text of a map key, or the element
/// of a sequence.
pub enum KeyView {
    MapKey(Seq<char>),
    SeqElem(ElemId),
}

/// The key of an operation, borrowed from the columns: a key of a map, or
/// an element of a sequence.
#[derive(Debug, Clone, Copy, PartialEq)]
pub enum KeyRef<'a> {
    MapKey(&'a str),
    SeqElem(ElemId),
}

/// The key of an operation, owned.
#[derive(Debug, Clone, PartialEq, Eq, Hash)]
pub enum Key {
    MapKey(String),
    SeqElem(ElemId),
}

/// What a user names inside an object: a key of a map, or an index into a
/// list.
#[derive(Debug, Clone, Copy, PartialEq)]
pub enum PropRef<'a> {
    MapKey(&'a str),
    SeqIndex(usize),
}

impl<'a> View for KeyRef<'a> {
    type V = KeyView;

    open spec fn view(&self) -> KeyView {
        match *self {
            KeyRef::MapKey(s) => KeyView::MapKey(s@),
            KeyRef::SeqElem(e) => KeyView::SeqElem(e),
        }
    }
}

impl View for Key {
    type V = KeyView;

    open spec fn view(&self) -> KeyView {
        match *self {
            Key::MapKey(s) => KeyView::MapKey(s@),
            Key::SeqElem(e) => KeyView::SeqElem(e),
        }
    }
}

impl From<ElemId> for Key {
    fn from(e: ElemId) -> (k: Key) {
        Key::SeqElem(e)
    }
}

impl vstd::std_specs::convert::FromSpecImpl<ElemId> for Key {
    open spec fn obeys_from_spec() -> bool {
        true
    }

    open spec fn from_spec(e: ElemId) -> Key {
        Key::SeqElem(e)
    }
}

impl From<String> for Key {
    fn from(s: String) -> (k: Key) {
        Key::MapKey(s)
    }
}

impl vstd::std_specs::convert::FromSpecImpl<String> for Key {
    open spec fn obeys_from_spec() -> bool {
        true
    }

    open spec fn from_spec(s: String) -> Key {
        Key::MapKey(s)
    }
}

impl Key {
    /// The key, borrowed.
    pub fn to_ref<'a>(&'a self) -> (k: KeyRef<'a>)
        ensures
            k@ == self@,
    {
        match self {
            Key::MapKey(s) => KeyRef::MapKey(s.as_str()),
            Key::SeqElem(e) => KeyRef::SeqElem(*e),
        }
    }
}

impl<'a> KeyRef<'a> {
    /// The key with a text of its own.
    pub fn into_owned(self) -> (k: Key)
        ensures
            k@ == self@,
    {
        match self {
            KeyRef::MapKey(s) => Key::MapKey(s.to_owned()),
            KeyRef::SeqElem(e) => Key::SeqElem(e),
        }
    }

    /// The text of the key, if it is a key of a map.
    pub fn map_key(&self) -> (r: Option<&'a str>)
        ensures
            match *self {
                KeyRef::MapKey(s) => r == Some(s),
                KeyRef::SeqElem(_) => r is None,
            },
    {
        match self {
            KeyRef::MapKey(s) => Some(*s),
            KeyRef::SeqElem(_) => None,
        }
    }

    /// The element, if the key is an element of a sequence.
    pub fn elemid(&self) -> (r: Option<ElemId>)
        ensures
            match *self {
                KeyRef::MapKey(_) => r is None,
                KeyRef::SeqElem(e) => r == Some(e),
            },
    {
        match self {
            KeyRef::MapKey(_) => None,
            KeyRef::SeqElem(e) => Some(*e),
        }
    }

    /// Whether the two keys are the same: the same text, or the same
    /// element.
    pub fn same(&self, other: &KeyRef<'_>) -> (b: bool)
        ensures
            b == (self@ == other@),
    {
        match (self, other) {
            (KeyRef::MapKey(a), KeyRef::MapKey(b)) => strs_equal(a, b),
            (KeyRef::SeqElem(a), KeyRef::SeqElem(b)) => a.0.same(&b.0),
            _ => false,
        }
    }
}

/// The data of a mark as a mathematical object.
pub struct MarkDataView {
    pub name: Seq<char>,
    pub value: ScalarView,
}

/// The name and the value of a mark, borrowed from the columns.
#[derive(Debug, Clone, Copy, PartialEq)]
pub struct MarkData<'a> {
    pub name: &'a str,
    pub value: ScalarValue<'a>,
}

impl<'a> View for MarkData<'a> {
    type V = MarkDataView;

    open spec fn view(&self) -> MarkDataView {
        MarkDataView { name: self.name@, value: self.value@ }
    }
}

/// What an operation does as a mathematical object.
pub enum OpTypeView {
    Make(ObjType),
    Delete,
    Increment(i64),
    Put(ScalarView),
    MarkBegin(bool, MarkDataView),
    MarkEnd(bool),
}

impl OpTypeView {
    /// The action under which the operation is stored; the two ends of a
    /// mark share one.
    pub open spec fn action(self) -> Action {
        match self {
            OpTypeView::Make(ObjType::MapObj) => Action::MakeMap,
            OpTypeView::Put(_) => Action::Put,
            OpTypeView::Make(ObjType::List) => Action::MakeList,
            OpTypeView::Delete => Action::Delete,
            OpTypeView::Make(ObjType::Text) => Action::MakeText,
            OpTypeView::Increment(_) => Action::Increment,
            OpTypeView::Make(ObjType::Table) => Action::MakeTable,
            OpTypeView::MarkBegin(_, _) | OpTypeView::MarkEnd(_) => Action::Mark,
        }
    }

    /// The scalar that the operation stores in the value columns.
    pub open spec fn scalar(self) -> ScalarView {
        match self {
            OpTypeView::Put(s) => s,
            OpTypeView::Increment(i) => ScalarView::Int(i),
            OpTypeView::MarkBegin(_, data) => data.value,
            _ => ScalarView::Null,
        }
    }

    /// The operation that an action, a value, the name of a mark and its
    /// expand flag stand for. An increment takes its amount from an integer
    /// value, an unsigned one reinterpreted as signed.
    pub open spec fn from_action_and_value(
        action: Action,
        value: ScalarView,
        mark_name: Option<Seq<char>>,
        expand: bool,
    ) -> OpTypeView {
        match action {
            Action::MakeMap => OpTypeView::Make(ObjType::MapObj),
            Action::MakeList => OpTypeView::Make(ObjType::List),
            Action::MakeText => OpTypeView::Make(ObjType::Text),
            Action::MakeTable => OpTypeView::Make(ObjType::Table),
            Action::Put => OpTypeView::Put(value),
            Action::Delete => OpTypeView::Delete,
            Action::Increment => match value {
                ScalarView::Int(i) => OpTypeView::Increment(i),
                ScalarView::Uint(i) => OpTypeView::Increment(i as i64),
                _ => arbitrary(),
            },
            Action::Mark => match mark_name {
                Some(name) => OpTypeView::MarkBegin(expand, MarkDataView { name, value }),
                None => OpTypeView::MarkEnd(expand),
            },
        }
    }
}

/// What an operation does, with its value borrowed from the columns.
#[derive(Debug, Clone, Copy)]
pub enum OpType<'a> {
    Make(ObjType),
    Delete,
    Increment(i64),
    Put(ScalarValue<'a>),
    MarkBegin(bool, MarkData<'a>),
    MarkEnd(bool),
}

impl<'a> View for OpType<'a> {
    type V = OpTypeView;

    open spec fn view(&self) -> OpTypeView {
        match *self {
            OpType::Make(t) => OpTypeView::Make(t),
            OpType::Delete => OpTypeView::Delete,
            OpType::Increment(i) => OpTypeView::Increment(i),
            OpType::Put(v) => OpTypeView::Put(v@),
            OpType::MarkBegin(expand, mark) => OpTypeView::MarkBegin(expand, mark@),
            OpType::MarkEnd(expand) => OpTypeView::MarkEnd(expand),
        }
    }
}

/// A value as a mathematical object: an object of some kind, or a scalar.
pub enum ValueView {
    Object(ObjType),
    Scalar(ScalarView),
}

/// A value: an object of some kind, or a scalar borrowed from the columns.
#[derive(Debug, Clone, Copy, PartialEq)]
pub enum Value<'a> {
    Object(ObjType),
    Scalar(ScalarValue<'a>),
}

impl<'a> View for Value<'a> {
    type V = ValueView;

    open spec fn view(&self) -> ValueView {
        match *self {
            Value::Object(o) => ValueView::Object(o),
            Value::Scalar(s) => ValueView::Scalar(s@),
        }
    }
}

/// An action that makes no object.
#[derive(Debug, Clone, Copy, PartialEq, Eq, Structural)]
pub struct NotAnObject;

impl TryFrom<Action> for ObjType {
    type Error = NotAnObject;

    fn try_from(action: Action) -> (r: Result<ObjType, NotAnObject>) {
        match action {
            Action::MakeMap => Ok(ObjType::MapObj),
            Action::MakeList => Ok(ObjType::List),
            Action::MakeText => Ok(ObjType::Text),
            _ => Err(NotAnObject),
        }
    }
}

impl vstd::std_specs::convert::TryFromSpecImpl<Action> for ObjType {
    open spec fn obeys_try_from_spec() -> bool {
        true
    }

    open spec fn try_from_spec(action: Action) -> Result<ObjType, NotAnObject> {
        match action {
            Action::MakeMap => Ok(ObjType::MapObj),
            Action::MakeList => Ok(ObjType::List),
            Action::MakeText => Ok(ObjType::Text),
            _ => Err(NotAnObject),
        }
    }
}

impl<'a> MarkData<'a> {
    /// The mark with a name and a value of its own.
    pub fn into_owned(self) -> (m: OwnedMarkData)
        ensures
            m@ == self@,
    {
        OwnedMarkData { name: self.name.to_owned(), value: self.value.into_owned() }
    }

    /// Whether the mark holds the same name and value as an owned one.
    pub fn same_as(&self, other: &OwnedMarkData) -> (b: bool)
        ensures
            b == (self@ == other@),
    {
        strs_equal(self.name, other.name.as_str()) && self.value.same_as(&other.value)
    }
}

impl<'a> OpType<'a> {
    /// The operation with a value of its own.
    pub fn into_owned(self) -> (o: OwnedOpType)
        ensures
            o@ == self@,
    {
        match self {
            OpType::Make(t) => OwnedOpType::Make(t),
            OpType::Delete => OwnedOpType::Delete,
            OpType::Increment(i) => OwnedOpType::Increment(i),
            OpType::Put(v) => OwnedOpType::Put(v.into_owned()),
            OpType::MarkBegin(ex, mark) => OwnedOpType::MarkBegin(ex, mark.into_owned()),
            OpType::MarkEnd(ex) => OwnedOpType::MarkEnd(ex),
        }
    }

    /// Rebuilds what an operation does from the columns that hold it.
    pub fn from_action_and_value(
        action: Action,
        value: ScalarValue<'a>,
        mark_name: Option<&'a str>,
        expand: bool,
    ) -> (o: OpType<'a>)
        requires
            action == Action::Increment ==> value is Int || value is Uint,
        ensures
            o@ == OpTypeView::from_action_and_value(
                action,
                value@,
                match mark_name {
                    Some(name) => Some(name@),
                    None => None,
                },
                expand,
            ),
    {
        match action {
            Action::MakeMap => OpType::Make(ObjType::MapObj),
            Action::MakeList => OpType::Make(ObjType::List),
            Action::MakeText => OpType::Make(ObjType::Text),
            Action::MakeTable => OpType::Make(ObjType::Table),
            Action::Put => OpType::Put(value),
            Action::Delete => OpType::Delete,
            Action::Increment => match value {
                ScalarValue::Int(i) => OpType::Increment(i),
                ScalarValue::Uint(i) => OpType::Increment(i as i64),
                _ => {
                    proof {
                        assert(false);
                    }
                    OpType::Delete
                },
            },
            Action::Mark => match mark_name {
                Some(name) => OpType::MarkBegin(expand, MarkData { name, value }),
                None => OpType::MarkEnd(expand),
            },
        }
    }

    /// The action under which the operation is stored.
    pub fn action(&self) -> (a: Action)
        ensures
            a == self@.action(),
    {
        match self {
            OpType::Make(ObjType::MapObj) => Action::MakeMap,
            OpType::Put(_) => Action::Put,
            OpType::Make(ObjType::List) => Action::MakeList,
            OpType::Delete => Action::Delete,
            OpType::Make(ObjType::Text) => Action::MakeText,
            OpType::Increment(_) => Action::Increment,
            OpType::Make(ObjType::Table) => Action::MakeTable,
            OpType::MarkBegin(_, _) | OpType::MarkEnd(_) => Action::Mark,
        }
    }

    /// Whether the operation is the same as an owned one.
    pub fn same_as(&self, other: &OwnedOpType) -> (b: bool)
        ensures
            b == (self@ == other@),
    {
        match (self, other) {
            (OpType::Make(a), OwnedOpType::Make(b)) => obj_types_equal(*a, *b),
            (OpType::Delete, OwnedOpType::Delete) => true,
            (OpType::Increment(a), OwnedOpType::Increment(b)) => *a == *b,
            (OpType::Put(a), OwnedOpType::Put(b)) => a.same_as(b),
            (OpType::MarkBegin(a1, a2), OwnedOpType::MarkBegin(b1, b2)) => *a1 == *b1 && a2.same_as(
                b2,
            ),
            (OpType::MarkEnd(a), OwnedOpType::MarkEnd(b)) => *a == *b,
            _ => false,
        }
    }
}

/// Whether two kinds of object are the same.
pub fn obj_types_equal(a: ObjType, b: ObjType) -> (same: bool)
    ensures
        same == (a == b),
{
    a == b
}

impl<'a> Value<'a> {
    /// The value with a scalar of its own.
    pub fn into_owned(self) -> (v: OwnedValue)
        ensures
            v@ == self@,
    {
        match self {
            Value::Object(o) => OwnedValue::Object(o),
            Value::Scalar(s) => OwnedValue::Scalar(s.into_owned()),
        }
    }
}

impl<'a> ScalarValue<'a> {
    /// The scalar with bytes and text of its own.
    pub fn into_owned(self) -> (o: OwnedScalarValue)
        ensures
            o@ == self@,
    {
        match self {
            ScalarValue::Bytes(b) => OwnedScalarValue::Bytes(vstd::slice::slice_to_vec(b)),
            ScalarValue::Str(s) => OwnedScalarValue::Str(s.to_owned()),
            ScalarValue::Int(n) => OwnedScalarValue::Int(n),
            ScalarValue::Uint(n) => OwnedScalarValue::Uint(n),
            ScalarValue::F64(n) => OwnedScalarValue::F64(n),
            ScalarValue::Counter(n) => OwnedScalarValue::Counter(n),
            ScalarValue::Timestamp(n) => OwnedScalarValue::Timestamp(n),
            ScalarValue::Boolean(b) => OwnedScalarValue::Boolean(b),
            ScalarValue::Unknown { type_code, bytes } => OwnedScalarValue::Unknown {
                type_code,
                bytes: vstd::slice::slice_to_vec(bytes),
            },
            ScalarValue::Null => OwnedScalarValue::Null,
        }
    }

    /// Whether the scalar holds the same as an owned one: the same variant
    /// and the same content, a float by its bits.
    pub fn same_as(&self, other: &OwnedScalarValue) -> (b: bool)
        ensures
            b == (self@ == other@),
    {
        match (self, other) {
            (ScalarValue::Bytes(a), OwnedScalarValue::Bytes(b)) => bytes_equal(a, b.as_slice()),
            (ScalarValue::Str(a), OwnedScalarValue::Str(b)) => strs_equal(a, b.as_str()),
            (ScalarValue::Int(a), OwnedScalarValue::Int(b)) => *a == *b,
            (ScalarValue::Uint(a), OwnedScalarValue::Uint(b)) => *a == *b,
            (ScalarValue::F64(a), OwnedScalarValue::F64(b)) => *a == *b,
            (ScalarValue::Counter(a), OwnedScalarValue::Counter(b)) => *a == *b,
            (ScalarValue::Timestamp(a), OwnedScalarValue::Timestamp(b)) => *a == *b,
            (ScalarValue::Boolean(a), OwnedScalarValue::Boolean(b)) => *a == *b,
            (ScalarValue::Null, OwnedScalarValue::Null) => true,
            (
                ScalarValue::Unknown { type_code: a1, bytes: a2 },
                OwnedScalarValue::Unknown { type_code: b1, bytes: b2 },
            ) => *a1 == *b1 && bytes_equal(a2, b2.as_slice()),
            _ => false,
        }
    }
}

impl<'a> From<u64> for ScalarValue<'a> {
    fn from(n: u64) -> (s: ScalarValue<'a>) {
        ScalarValue::Uint(n)
    }
}

impl<'a> vstd::std_specs::convert::FromSpecImpl<u64> for ScalarValue<'a> {
    open spec fn obeys_from_spec() -> bool {
        true
    }

    open spec fn from_spec(n: u64) -> ScalarValue<'a> {
        ScalarValue::Uint(n)
    }
}

impl<'a> From<i64> for ScalarValue<'a> {
    fn from(n: i64) -> (s: ScalarValue<'a>) {
        ScalarValue::Int(n)
    }
}

impl<'a> vstd::std_specs::convert::FromSpecImpl<i64> for ScalarValue<'a> {
    open spec fn obeys_from_spec() -> bool {
        true
    }

    open spec fn from_spec(n: i64) -> ScalarValue<'a> {
        ScalarValue::Int(n)
    }
}

impl<'a> PartialEq<OwnedScalarValue> for ScalarValue<'a> {
    fn eq(&self, other: &OwnedScalarValue) -> (b: bool) {
        self.same_as(other)
    }
}

impl<'a> vstd::std_specs::cmp::PartialEqSpecImpl<OwnedScalarValue> for ScalarValue<'a> {
    open spec fn obeys_eq_spec() -> bool {
        true
    }

    open spec fn eq_spec(&self, other: &OwnedScalarValue) -> bool {
        self@ == other@
    }
}

impl<'a> PartialEq<OwnedMarkData> for MarkData<'a> {
    fn eq(&self, other: &OwnedMarkData) -> (b: bool) {
        self.same_as(other)
    }
}

impl<'a> vstd::std_specs::cmp::PartialEqSpecImpl<OwnedMarkData> for MarkData<'a> {
    open spec fn obeys_eq_spec() -> bool {
        true
    }

    open spec fn eq_spec(&self, other: &OwnedMarkData) -> bool {
        self@ == other@
    }
}

impl<'a> PartialEq<OwnedOpType> for OpType<'a> {
    fn eq(&self, other: &OwnedOpType) -> (b: bool) {
        self.same_as(other)
    }
}

impl<'a> vstd::std_specs::cmp::PartialEqSpecImpl<OwnedOpType> for OpType<'a> {
    open spec fn obeys_eq_spec() -> bool {
        true
    }

    open spec fn eq_spec(&self, other: &OwnedOpType) -> bool {
        self@ == other@
    }
}

impl<'a> PartialEq<OpType<'a>> for OwnedOpType {
    fn eq(&self, other: &OpType<'a>) -> (b: bool) {
        other.same_as(self)
    }
}

impl<'a> vstd::std_specs::cmp::PartialEqSpecImpl<OpType<'a>> for OwnedOpType {
    open spec fn obeys_eq_spec() -> bool {
        true
    }

    open spec fn eq_spec(&self, other: &OpType<'a>) -> bool {
        self@ == other@
    }
}

impl<'a> From<&'a OwnedScalarValue> for ScalarValue<'a> {
    fn from(s: &'a OwnedScalarValue) -> (r: ScalarValue<'a>)
        ensures
            r@ == s@,
    {
        s.as_ref()
    }
}

/// The result borrows from the argument, which no function of the
/// argument's value can name: `from` states what it returns by itself.
impl<'a> vstd::std_specs::convert::FromSpecImpl<&'a OwnedScalarValue> for ScalarValue<'a> {
    open spec fn obeys_from_spec() -> bool {
        false
    }

    open spec fn from_spec(s: &'a OwnedScalarValue) -> ScalarValue<'a> {
        arbitrary()
    }
}

impl<'a> From<&'a OwnedOpType> for ScalarValue<'a> {
    fn from(o: &'a OwnedOpType) -> (r: ScalarValue<'a>)
        ensures
            r@ == o@.scalar(),
    {
        o.scalar()
    }
}

/// The result borrows from the argument, which no function of the
/// argument's value can name: `from` states what it returns by itself.
impl<'a> vstd::std_specs::convert::FromSpecImpl<&'a OwnedOpType> for ScalarValue<'a> {
    open spec fn obeys_from_spec() -> bool {
        false
    }

    open spec fn from_spec(o: &'a OwnedOpType) -> ScalarValue<'a> {
        arbitrary()
    }
}

} // verus!
