//! JSON documents, read through `serde_json`.
//!
//! A parsed document is a `serde_json::Value`, which the verifier cannot look
//! into. Each accessor used by this crate gets a name for what it returns, and
//! one wrapper whose contract says that the call returns exactly that.

use vstd::prelude::*;
use num_traits::ToPrimitive;
use serde_json::Value;

verus! {

/// A parsed JSON value.
#[verifier::external_type_specification]
#[verifier::external_body]
pub struct ExValue(serde_json::Value);

/// The error of `serde_json`'s parser.
#[verifier::external_type_specification]
#[verifier::external_body]
pub struct ExJsonError(serde_json::Error);

/// The value that a text parses to as JSON, if it is well-formed JSON.
pub uninterp spec fn json_document(text: Seq<char>) -> Option<Value>;

/// The members of a JSON object as pairs of key and value, in the order in
/// which the object hands them out; nothing for a value that is no object.
pub uninterp spec fn json_members(v: Value) -> Option<Seq<(Seq<char>, Value)>>;

/// The elements of a JSON array; nothing for a value that is no array.
pub uninterp spec fn json_items(v: Value) -> Option<Seq<Value>>;

/// A JSON number as a signed 64-bit integer; nothing for a value that is no
/// number, for a number with a fraction or an exponent, and for an integer
/// beyond the range.
pub uninterp spec fn json_integer(v: Value) -> Option<i64>;

/// A JSON number rounded to single precision, as a bit pattern; nothing for a
/// value that is no number.
pub uninterp spec fn json_single(v: Value) -> Option<u32>;

/// `serde_json::from_str`, reading a whole text as one JSON value.
///
/// The outcome depends on the text alone: the value it parses to, or an error
/// where the text is not well-formed JSON.
#[verifier::external_body]
pub(crate) fn parse(text: &str) -> (r: Result<Value, serde_json::Error>)
    ensures
        r is Ok <==> json_document(text@) is Some,
        r matches Ok(v) ==> json_document(text@) == Some(v),
{
    serde_json::from_str(text)
}

/// `serde_json::Value::as_object`, with the members collected from the map's
/// iterator as references to each key and value.
#[verifier::external_body]
pub(crate) fn members(v: &Value) -> (r: Option<Vec<(&String, &Value)>>)
    ensures
        r is Some <==> json_members(*v) is Some,
        r matches Some(list) ==> json_members(*v) == Some(
            list@.map_values(|e: (&String, &Value)| (e.0@, *e.1)),
        ),
{
    v.as_object().map(|map| map.iter().collect())
}

/// `serde_json::Value::as_array`.
#[verifier::external_body]
pub(crate) fn items(v: &Value) -> (r: Option<&Vec<Value>>)
    ensures
        r is Some <==> json_items(*v) is Some,
        r matches Some(list) ==> json_items(*v) == Some(list@),
{
    v.as_array()
}

/// `serde_json::Value::as_i64`.
#[verifier::external_body]
pub(crate) fn integer(v: &Value) -> (r: Option<i64>)
    ensures
        r == json_integer(*v),
{
    v.as_i64()
}

/// `serde_json::Value::as_f64`, narrowed to single precision by
/// `num_traits::ToPrimitive::to_f32` and handed out as its bit pattern.
#[verifier::external_body]
pub(crate) fn single(v: &Value) -> (r: Option<u32>)
    ensures
        r == json_single(*v),
{
    v.as_f64().and_then(|x| x.to_f32()).map(|x| x.to_bits())
}

} // verus!
