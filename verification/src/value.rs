//! The generic value model consumed by the inference engine, and the
//! classification of a value into the leaf type it declares.

use vstd::prelude::*;

verus! {

/// Storage class of a parsed number: the external parser tells a value that
/// fits a signed 64-bit integer from one that only fits an unsigned 64-bit
/// integer from one that fits neither.
#[derive(Clone, Copy, Debug, PartialEq, Eq)]
pub enum NumberKind {
    Signed,
    Unsigned,
    Float,
}

/// A parsed JSON-like value. The engine never mutates a value and never
/// recurses into nested arrays or objects: both are leaf kinds for schema
/// purposes, an object's pairs are read only at the top record level.
#[derive(Debug)]
pub enum Value {
    Null,
    Boolean(bool),
    Number(NumberKind),
    Text(String),
    Array(Vec<Value>),
    Object(Vec<(String, Value)>),
}

/// The leaf type a field declares: which value kind was observed.
#[derive(Clone, Copy, Debug, PartialEq, Eq)]
pub enum TypeTag {
    Str,
    SignedInt,
    UnsignedInt,
    Float,
    Boolean,
    ArrayOfUnknown,
    ObjectMap,
    AnyOrNull,
}

/// The classification of one observed value.
pub open spec fn type_of(v: Value) -> TypeTag {
    match v {
        Value::Null => TypeTag::AnyOrNull,
        Value::Boolean(_) => TypeTag::Boolean,
        Value::Number(NumberKind::Signed) => TypeTag::SignedInt,
        Value::Number(NumberKind::Unsigned) => TypeTag::UnsignedInt,
        Value::Number(NumberKind::Float) => TypeTag::Float,
        Value::Text(_) => TypeTag::Str,
        Value::Array(_) => TypeTag::ArrayOfUnknown,
        Value::Object(_) => TypeTag::ObjectMap,
    }
}

/// Classifies one observed value.
pub fn value_type(v: &Value) -> (t: TypeTag)
    ensures
        t == type_of(*v),
{
    match v {
        Value::Null => TypeTag::AnyOrNull,
        Value::Boolean(_) => TypeTag::Boolean,
        Value::Number(NumberKind::Signed) => TypeTag::SignedInt,
        Value::Number(NumberKind::Unsigned) => TypeTag::UnsignedInt,
        Value::Number(NumberKind::Float) => TypeTag::Float,
        Value::Text(_) => TypeTag::Str,
        Value::Array(_) => TypeTag::ArrayOfUnknown,
        Value::Object(_) => TypeTag::ObjectMap,
    }
}

} // verus!
