//! The two value models that the bridge maps between: the dynamically typed
//! boundary value and the relational engine's native column value.

use crate::text::is_real_text;
use vstd::prelude::*;

verus! {

/// A value as the caller presents or receives it: a tagged union over null,
/// boolean, number, string, ordered array and ordered object.  A number is
/// carried either as a 64-bit signed integer or, for non-integer numbers, as
/// its decimal numeral (see `is_real_text`), so the model stays exact.
#[derive(Debug, PartialEq, Eq)]
pub enum ExternalValue {
    Null,
    Boolean(bool),
    Int(i64),
    Real(String),
    Str(String),
    Array(Vec<ExternalValue>),
    Object(Vec<(String, ExternalValue)>),
}

/// A value as the relational engine holds it in a column.  A real is carried
/// as its decimal numeral, exactly as in `ExternalValue`; the unverified rim
/// converts that numeral to and from the engine's 64-bit float.
#[derive(Debug, PartialEq, Eq)]
pub enum NativeValue {
    Null,
    Integer(i64),
    Real(String),
    Text(String),
    Blob(Vec<u8>),
}

/// Well-formedness of a boundary value: every non-integer number carries a
/// numeric token that is not the canonical numeral of an `i64`.
pub open spec fn wf_external(v: ExternalValue) -> bool
    decreases v,
{
    match v {
        ExternalValue::Real(t) => is_real_text(t@),
        ExternalValue::Array(xs) => forall|k: int|
            0 <= k < xs@.len() ==> wf_external(#[trigger] xs@[k]),
        ExternalValue::Object(ps) => forall|k: int|
            0 <= k < ps@.len() ==> wf_external(#[trigger] ps@[k].1),
        _ => true,
    }
}

/// Structural equality of boundary values, comparing strings by contents.
pub open spec fn same_value(a: ExternalValue, b: ExternalValue) -> bool
    decreases a,
{
    match (a, b) {
        (ExternalValue::Null, ExternalValue::Null) => true,
        (ExternalValue::Boolean(x), ExternalValue::Boolean(y)) => x == y,
        (ExternalValue::Int(x), ExternalValue::Int(y)) => x == y,
        (ExternalValue::Real(x), ExternalValue::Real(y)) => x@ == y@,
        (ExternalValue::Str(x), ExternalValue::Str(y)) => x@ == y@,
        (ExternalValue::Array(xs), ExternalValue::Array(ys)) => xs@.len() == ys@.len()
            && (forall|k: int|
            0 <= k < xs@.len() ==> same_value(#[trigger] xs@[k], ys@[k])),
        (ExternalValue::Object(ps), ExternalValue::Object(qs)) => ps@.len() == qs@.len()
            && (forall|k: int|
            0 <= k < ps@.len() ==> #[trigger] ps@[k].0@ == qs@[k].0@ && same_value(
                ps@[k].1,
                qs@[k].1,
            )),
        _ => false,
    }
}

/// The executor's error taxonomy.  Each variant carries the engine's own
/// message text, preserved verbatim.
#[derive(Debug)]
pub enum DbError {
    /// The storage directory or file could not be accessed.
    Io(String),
    /// The schema batch was rejected while initializing the store.
    Schema(String),
    /// The store could not be opened.
    Connection(String),
    /// Statement preparation, parameter binding or row extraction failed.
    Query(String),
}

impl DbError {
    /// The message carried by the error, whatever the variant.
    pub fn message(&self) -> (r: String)
        ensures
            r@ == match *self {
                DbError::Io(ref m) => m@,
                DbError::Schema(ref m) => m@,
                DbError::Connection(ref m) => m@,
                DbError::Query(ref m) => m@,
            },
    {
        match self {
            DbError::Io(m) => m.clone(),
            DbError::Schema(m) => m.clone(),
            DbError::Connection(m) => m.clone(),
            DbError::Query(m) => m.clone(),
        }
    }
}

} // verus!
