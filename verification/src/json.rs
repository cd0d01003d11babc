//! The calls into `serde_json`. Their contracts are not proved: each says
//! what the library takes the call to return.

use vstd::prelude::*;
use crate::config::{fields_view, ConfigField, FieldView};

verus! {

/// The members of the JSON object that a text denotes, as
/// `serde_json::from_str` reads it into a `serde_json::Map` and in the order
/// in which that map hands its members out; `None` for a text that is not a
/// JSON object. Each member comes with its name, with its value as
/// `serde_json::Value` displays it (compact JSON), and, where the value is
/// a JSON string, with that string.
pub uninterp spec fn json_object(text: Seq<char>) -> Option<Seq<FieldView>>;

/// The compact form of the JSON value that a text denotes: what
/// `serde_json::Value` displays after `serde_json::from_str` has read the
/// text; `None` for a text that is not JSON.
pub uninterp spec fn json_compact(text: Seq<char>) -> Option<Seq<char>>;

/// The view of what [`read_object`] returns.
pub open spec fn object_view(r: Option<Vec<ConfigField>>) -> Option<Seq<FieldView>> {
    match r {
        Some(fields) => Some(fields_view(fields@)),
        None => None,
    }
}

/// The view of what [`read_compact`] returns.
pub open spec fn compact_view(r: Option<String>) -> Option<Seq<char>> {
    match r {
        Some(compact) => Some(compact@),
        None => None,
    }
}

/// Calls `serde_json::from_str` for a `serde_json::Map<String, Value>` and
/// hands out the members of the map it returns: each value through
/// `Value`'s `Display` and through `Value::as_str`. An error of
/// `from_str` becomes `None`. The contract only gives the result its name,
/// `json_object`.
#[verifier::external_body]
pub(crate) fn read_object(text: &str) -> (r: Option<Vec<ConfigField>>)
    ensures
        object_view(r) == json_object(text@),
{
    match serde_json::from_str::<serde_json::Map<String, serde_json::Value>>(text) {
        Ok(map) => Some(
            map.into_iter().map(|(name, value)| ConfigField {
                string: value.as_str().map(String::from),
                json: value.to_string(),
                name,
            }).collect(),
        ),
        Err(_) => None,
    }
}

/// Calls `serde_json::from_str` for a `serde_json::Value` and returns what
/// that value displays, which is its compact JSON text. An error of
/// `from_str` becomes `None`. The contract only gives the result its name,
/// `json_compact`.
#[verifier::external_body]
pub(crate) fn read_compact(text: &str) -> (r: Option<String>)
    ensures
        compact_view(r) == json_compact(text@),
{
    match serde_json::from_str::<serde_json::Value>(text) {
        Ok(value) => Some(value.to_string()),
        Err(_) => None,
    }
}

} // verus!
