//! A plain JSON tree, and the trusted boundary to the outside JSON parser.
//!
//! The catalog document is JSON text. Decoding JSON text is the outside
//! crate's work; everything that interprets the decoded tree as a catalog is
//! verified code over the `JsonValue` type below.

use vstd::prelude::*;
use crate::model::assoc_keys_unique;

verus! {

/// A JSON document as a plain tree. Object members are kept as a list of
/// pairs; the decoder hands them over deduplicated.
pub enum JsonValue {
    Null,
    Bool(bool),
    /// A number, carried as its decimal rendering. The catalog logic never
    /// reads numbers; they occur only in tolerated unknown fields.
    Number(String),
    Str(String),
    Arr(Vec<JsonValue>),
    Obj(Vec<(String, JsonValue)>),
}

/// Every object in the tree has pairwise distinct member names.
pub open spec fn json_wf(j: JsonValue) -> bool
    decreases j,
{
    match j {
        JsonValue::Arr(items) => forall|i: int|
            0 <= i < items@.len() ==> json_wf(#[trigger] items@[i]),
        JsonValue::Obj(fields) => {
            &&& assoc_keys_unique(fields@)
            &&& forall|i: int| 0 <= i < fields@.len() ==> json_wf((#[trigger] fields@[i]).1)
        },
        _ => true,
    }
}

/// The JSON tree denoted by a piece of text, if it is valid JSON; which
/// tree that is depends on the text alone.
pub uninterp spec fn json_tree_of(s: Seq<char>) -> Option<JsonValue>;

#[verifier::external_type_specification]
#[verifier::external_body]
pub struct ExSerdeValue(serde_json::Value);

/// Relies on serde_json::from_str::<serde_json::Value>: whether the text is
/// valid JSON, and which tree it denotes, are functions of the text alone;
/// object members come out deduplicated (for a repeated name the last value
/// wins) and in a deterministic order.
#[verifier::external_body]
pub(crate) fn parse_json_text(s: &str) -> (r: Result<JsonValue, String>)
    ensures
        r is Ok <==> json_tree_of(s@) is Some,
        r matches Ok(j) ==> json_tree_of(s@) == Some(j) && json_wf(j),
{
    match serde_json::from_str::<serde_json::Value>(s) {
        Ok(v) => Ok(convert_value(v)),
        Err(e) => Err(e.to_string()),
    }
}

/// Relies on the shape of serde_json::Value: each variant is carried over
/// one for one; a number is carried as its decimal rendering.
#[verifier::external_body]
fn convert_value(v: serde_json::Value) -> JsonValue {
    match v {
        serde_json::Value::Null => JsonValue::Null,
        serde_json::Value::Bool(b) => JsonValue::Bool(b),
        serde_json::Value::Number(n) => JsonValue::Number(n.to_string()),
        serde_json::Value::String(s) => JsonValue::Str(s),
        serde_json::Value::Array(a) => JsonValue::Arr(a.into_iter().map(convert_value).collect()),
        serde_json::Value::Object(m) => JsonValue::Obj(
            m.into_iter().map(|(k, w)| (k, convert_value(w))).collect(),
        ),
    }
}

} // verus!
