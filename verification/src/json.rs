//! A thin trusted layer over `serde_json`'s dynamic value type.
//!
//! Envelope bodies carry arbitrary JSON payload values through this library
//! unchanged. Such a value is opaque to the verifier; the uninterpreted spec
//! functions below name what the `serde_json` accessors read out of one, and
//! each wrapper states its effect over those names.

use vstd::prelude::*;

use crate::assoc::{entries_map, keys_distinct};

verus! {

/// The dynamic JSON value type of the `serde_json` crate. Declared so that
/// message bodies can hold payload values and hand them back unchanged.
#[verifier::external_type_specification]
#[verifier::external_body]
pub struct ExValue(serde_json::Value);

/// The entries of a JSON object value, keyed by the object's string keys:
/// `Some` exactly when the value is an object. Names what
/// `serde_json::Value::as_object` exposes.
pub uninterp spec fn obj_of(v: serde_json::Value) -> Option<Map<Seq<char>, serde_json::Value>>;

/// The text of a JSON string value: `Some` exactly when the value is a
/// string. Names what `serde_json::Value::as_str` returns.
pub uninterp spec fn str_of(v: serde_json::Value) -> Option<Seq<char>>;

/// The numeric payload of a JSON value as an unsigned integer: `Some` exactly
/// when the value is a number representable in a `u64`. Names what
/// `serde_json::Value::as_u64` returns.
pub uninterp spec fn u64_of(v: serde_json::Value) -> Option<u64>;

/// The elements of a JSON array value in order: `Some` exactly when the value
/// is an array. Names what `serde_json::Value::as_array` exposes.
pub uninterp spec fn arr_of(v: serde_json::Value) -> Option<Seq<serde_json::Value>>;

/// Relies on `serde_json::Value`'s `Object` variant: an object value holds a
/// map of its string keys to field values, each key once; any other value is
/// handed back unchanged.
#[verifier::external_body]
pub(crate) fn value_entries(v: serde_json::Value) -> (r: Result<
    Vec<(String, serde_json::Value)>,
    serde_json::Value,
>)
    ensures
        match r {
            Ok(es) => keys_distinct(es@) && obj_of(v) == Some(entries_map(es@)),
            Err(w) => w == v && obj_of(v) is None,
        },
{
    match v {
        serde_json::Value::Object(m) => Ok(m.into_iter().collect()),
        other => Err(other),
    }
}

/// Relies on `serde_json::Value`'s `String` variant carrying the text; any
/// other value is handed back unchanged.
#[verifier::external_body]
pub(crate) fn value_into_string(v: serde_json::Value) -> (r: Result<String, serde_json::Value>)
    ensures
        match r {
            Ok(s) => str_of(v) == Some(s@),
            Err(w) => w == v && str_of(v) is None,
        },
{
    match v {
        serde_json::Value::String(s) => Ok(s),
        other => Err(other),
    }
}

/// Relies on `serde_json::Value::as_u64`: `Some` exactly for a number that
/// fits in a `u64`.
#[verifier::external_body]
pub(crate) fn value_as_u64(v: &serde_json::Value) -> (r: Option<u64>)
    ensures
        r == u64_of(*v),
{
    v.as_u64()
}

/// Relies on `serde_json::Value`'s `Array` variant carrying the elements in
/// order; any other value is handed back unchanged.
#[verifier::external_body]
pub(crate) fn value_into_array(v: serde_json::Value) -> (r: Result<
    Vec<serde_json::Value>,
    serde_json::Value,
>)
    ensures
        match r {
            Ok(a) => arr_of(v) == Some(a@),
            Err(w) => w == v && arr_of(v) is None,
        },
{
    match v {
        serde_json::Value::Array(a) => Ok(a),
        other => Err(other),
    }
}

/// Relies on `serde_json::Value::clone` producing a value equal to the
/// original.
#[verifier::external_body]
pub(crate) fn clone_value(v: &serde_json::Value) -> (r: serde_json::Value)
    ensures
        r == *v,
{
    v.clone()
}

/// Relies on `serde_json::Map::from_iter` (reached through `collect`): an
/// object built from distinct keys holds exactly those entries.
#[verifier::external_body]
pub(crate) fn object_value(entries: Vec<(String, serde_json::Value)>) -> (v: serde_json::Value)
    requires
        keys_distinct(entries@),
    ensures
        obj_of(v) == Some(entries_map(entries@)),
{
    serde_json::Value::Object(entries.into_iter().collect())
}

/// Relies on `serde_json::Value`'s `String` variant: wrapping a string yields
/// a string value with that text.
#[verifier::external_body]
pub(crate) fn string_value(s: String) -> (v: serde_json::Value)
    ensures
        str_of(v) == Some(s@),
{
    serde_json::Value::String(s)
}

/// Relies on `serde_json::Number::from` for `u64`: a whole number stored this
/// way reads back unchanged through `as_u64`.
#[verifier::external_body]
pub(crate) fn u64_value(n: u64) -> (v: serde_json::Value)
    ensures
        u64_of(v) == Some(n),
{
    serde_json::Value::Number(serde_json::Number::from(n))
}

} // verus!
