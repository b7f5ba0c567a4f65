//! The owned counterparts of the borrowed values: what is kept once the
//! columns they were read from are gone.

use crate::meta::ValueMeta;
use crate::types::{
    Action, MarkDataView, ObjType, OpTypeView, ScalarValue, ScalarView, Value, ValueView,
};
use std::borrow::Cow;
use vstd::prelude::*;

verus! {

/// A scalar value that owns its bytes and text. A float is held as the 64
/// bits of its IEEE 754 form.
#[derive(Debug, Clone, PartialEq)]
pub enum OwnedScalarValue {
    Bytes(Vec<u8>),
    Str(String),
    Int(i64),
    Uint(u64),
    F64(u64),
    Counter(i64),
    Timestamp(i64),
    Boolean(bool),
    Unknown { type_code: u8, bytes: Vec<u8> },
    Null,
}

impl View for OwnedScalarValue {
    type V = ScalarView;

    open spec fn view(&self) -> ScalarView {
        match *self {
            OwnedScalarValue::Bytes(b) => ScalarView::Bytes(b@),
            OwnedScalarValue::Str(s) => ScalarView::Str(s@),
            OwnedScalarValue::Int(i) => ScalarView::Int(i),
            OwnedScalarValue::Uint(i) => ScalarView::Uint(i),
            OwnedScalarValue::F64(bits) => ScalarView::F64(bits),
            OwnedScalarValue::Counter(i) => ScalarView::Counter(i),
            OwnedScalarValue::Timestamp(i) => ScalarView::Timestamp(i),
            OwnedScalarValue::Boolean(b) => ScalarView::Boolean(b),
            OwnedScalarValue::Unknown { type_code, bytes } => ScalarView::Unknown {
                type_code,
                bytes: bytes@,
            },
            OwnedScalarValue::Null => ScalarView::Null,
        }
    }
}

/// The name and the value of a mark, owned.
#[derive(Debug, Clone, PartialEq)]
pub struct OwnedMarkData {
    pub name: String,
    pub value: OwnedScalarValue,
}

impl View for OwnedMarkData {
    type V = MarkDataView;

    open spec fn view(&self) -> MarkDataView {
        MarkDataView { name: self.name@, value: self.value@ }
    }
}

/// What an operation does, with a value of its own.
#[derive(Debug, Clone, PartialEq)]
pub enum OwnedOpType {
    Make(ObjType),
    Delete,
    Increment(i64),
    Put(OwnedScalarValue),
    MarkBegin(bool, OwnedMarkData),
    MarkEnd(bool),
}

impl View for OwnedOpType {
    type V = OpTypeView;

    open spec fn view(&self) -> OpTypeView {
        match *self {
            OwnedOpType::Make(t) => OpTypeView::Make(t),
            OwnedOpType::Delete => OpTypeView::Delete,
            OwnedOpType::Increment(i) => OpTypeView::Increment(i),
            OwnedOpType::Put(v) => OpTypeView::Put(v@),
            OwnedOpType::MarkBegin(expand, mark) => OpTypeView::MarkBegin(expand, mark@),
            OwnedOpType::MarkEnd(expand) => OpTypeView::MarkEnd(expand),
        }
    }
}

/// A value: an object of some kind, or a scalar of its own.
#[derive(Debug, Clone, PartialEq)]
pub enum OwnedValue {
    Object(ObjType),
    Scalar(OwnedScalarValue),
}

impl View for OwnedValue {
    type V = ValueView;

    open spec fn view(&self) -> ValueView {
        match *self {
            OwnedValue::Object(o) => ValueView::Object(o),
            OwnedValue::Scalar(s) => ValueView::Scalar(s@),
        }
    }
}

impl OwnedScalarValue {
    /// The scalar, borrowed.
    pub fn as_ref<'a>(&'a self) -> (s: ScalarValue<'a>)
        ensures
            s@ == self@,
    {
        match self {
            OwnedScalarValue::Bytes(b) => ScalarValue::Bytes(b.as_slice()),
            OwnedScalarValue::Str(s) => ScalarValue::Str(s.as_str()),
            OwnedScalarValue::Int(n) => ScalarValue::Int(*n),
            OwnedScalarValue::Uint(n) => ScalarValue::Uint(*n),
            OwnedScalarValue::F64(n) => ScalarValue::F64(*n),
            OwnedScalarValue::Counter(n) => ScalarValue::Counter(*n),
            OwnedScalarValue::Timestamp(n) => ScalarValue::Timestamp(*n),
            OwnedScalarValue::Boolean(b) => ScalarValue::Boolean(*b),
            OwnedScalarValue::Unknown { type_code, bytes } => ScalarValue::Unknown {
                type_code: *type_code,
                bytes: bytes.as_slice(),
            },
            OwnedScalarValue::Null => ScalarValue::Null,
        }
    }

    /// The payload of the value for the raw-bytes column: borrowed for
    /// bytes, text and unknown values, built for numbers, absent for null
    /// and the booleans.
    pub fn to_raw(&self) -> (r: Option<Cow<'_, [u8]>>)
        ensures
            match r {
                Some(c) => self@.raw() == Some(c@),
                None => self@.raw() is None,
            },
            r matches Some(c) ==> (c is Borrowed <==> self@.raw_is_borrowed()),
    {
        self.as_ref().to_raw()
    }

    /// The metadata word of the value.
    pub fn meta(&self) -> (m: ValueMeta)
        ensures
            m == self@.meta(),
    {
        let borrowed = self.as_ref();
        ValueMeta::from(&borrowed)
    }
}

impl OwnedOpType {
    /// The action under which the operation is stored; the two ends of a
    /// mark share one.
    pub fn action(&self) -> (a: Action)
        ensures
            a == self@.action(),
    {
        match self {
            OwnedOpType::Make(ObjType::MapObj) => Action::MakeMap,
            OwnedOpType::Put(_) => Action::Put,
            OwnedOpType::Make(ObjType::List) => Action::MakeList,
            OwnedOpType::Delete => Action::Delete,
            OwnedOpType::Make(ObjType::Text) => Action::MakeText,
            OwnedOpType::Increment(_) => Action::Increment,
            OwnedOpType::Make(ObjType::Table) => Action::MakeTable,
            OwnedOpType::MarkBegin(_, _) | OwnedOpType::MarkEnd(_) => Action::Mark,
        }
    }

    /// The scalar that the operation stores in the value columns: the value
    /// put, the amount of an increment, the value of a mark, and null for
    /// the rest.
    pub fn scalar<'a>(&'a self) -> (s: ScalarValue<'a>)
        ensures
            s@ == self@.scalar(),
    {
        match self {
            OwnedOpType::Put(s) => s.as_ref(),
            OwnedOpType::Increment(i) => ScalarValue::Int(*i),
            OwnedOpType::MarkBegin(_, mark) => mark.value.as_ref(),
            _ => ScalarValue::Null,
        }
    }

    /// The payload that the operation stores in the raw-bytes column.
    pub fn to_raw(&self) -> (r: Option<Cow<'_, [u8]>>)
        ensures
            match r {
                Some(c) => self@.scalar().raw() == Some(c@),
                None => self@.scalar().raw() is None,
            },
    {
        self.scalar().to_raw()
    }
}

impl<'a> From<ScalarValue<'a>> for OwnedScalarValue {
    fn from(s: ScalarValue<'a>) -> (r: OwnedScalarValue)
        ensures
            r@ == s@,
    {
        s.into_owned()
    }
}

/// The result owns fresh bytes, of which only the content is fixed: `from`
/// states what it returns by itself.
impl<'a> vstd::std_specs::convert::FromSpecImpl<ScalarValue<'a>> for OwnedScalarValue {
    open spec fn obeys_from_spec() -> bool {
        false
    }

    open spec fn from_spec(s: ScalarValue<'a>) -> OwnedScalarValue {
        arbitrary()
    }
}

impl<'a, 'b> From<&'b ScalarValue<'a>> for OwnedScalarValue {
    fn from(s: &'b ScalarValue<'a>) -> (r: OwnedScalarValue)
        ensures
            r@ == s@,
    {
        s.into_owned()
    }
}

/// The result owns fresh bytes, of which only the content is fixed: `from`
/// states what it returns by itself.
impl<'a, 'b> vstd::std_specs::convert::FromSpecImpl<&'b ScalarValue<'a>> for OwnedScalarValue {
    open spec fn obeys_from_spec() -> bool {
        false
    }

    open spec fn from_spec(s: &'b ScalarValue<'a>) -> OwnedScalarValue {
        arbitrary()
    }
}

impl<'a> From<Value<'a>> for OwnedValue {
    fn from(v: Value<'a>) -> (r: OwnedValue)
        ensures
            r@ == v@,
    {
        v.into_owned()
    }
}

/// The result owns fresh bytes, of which only the content is fixed: `from`
/// states what it returns by itself.
impl<'a> vstd::std_specs::convert::FromSpecImpl<Value<'a>> for OwnedValue {
    open spec fn obeys_from_spec() -> bool {
        false
    }

    open spec fn from_spec(v: Value<'a>) -> OwnedValue {
        arbitrary()
    }
}

impl<'b> From<&'b OwnedScalarValue> for ValueMeta {
    fn from(p: &'b OwnedScalarValue) -> (m: ValueMeta) {
        p.meta()
    }
}

impl<'b> vstd::std_specs::convert::FromSpecImpl<&'b OwnedScalarValue> for ValueMeta {
    open spec fn obeys_from_spec() -> bool {
        true
    }

    open spec fn from_spec(p: &'b OwnedScalarValue) -> ValueMeta {
        p@.meta()
    }
}

} // verus!
