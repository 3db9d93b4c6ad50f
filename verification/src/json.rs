//! JSON documents, parsed by `serde_json` and held as plain values.
use serde_json::Error as JsonSyntaxError;
use vstd::prelude::*;

verus! {

/// A JSON value as the library reads it.
#[derive(Debug)]
pub enum JsonValue {
    Null,
    Bool(bool),
    /// A number, kept as `serde_json` prints it.
    Number(String),
    Str(String),
    Array(Vec<JsonValue>),
    /// Object members in the order `serde_json`'s map yields them.
    Object(Vec<(String, JsonValue)>),
}

#[verifier::external_type_specification]
#[verifier::external_body]
pub struct ExJsonSyntaxError(JsonSyntaxError);

#[verifier::external_type_specification]
#[verifier::external_body]
pub struct ExJsonValue(serde_json::Value);

/// What `serde_json::from_str::<serde_json::Value>` makes of `text` (`None` when it
/// rejects the text).
pub uninterp spec fn json_document(text: Seq<char>) -> Option<JsonValue>;

/// Parses `text` with `serde_json::from_str` into a [`JsonValue`].
///
/// Trusted: the result is `Ok` exactly when the named [`json_document`] is `Some`,
/// and then it is that value.
#[verifier::external_body]
pub fn parse_json(text: &str) -> (r: Result<JsonValue, JsonSyntaxError>)
    ensures
        r matches Ok(v) ==> json_document(text@) == Some(v),
        r is Err ==> json_document(text@) is None,
{
    serde_json::from_str::<serde_json::Value>(text).map(json_value_from)
}

/// The text of a `serde_json::Error`, as its `Display` impl writes it.
///
/// Trusted, with nothing stated of the text: `serde_json` writes it from the
/// error's category, line and column, which stay hidden inside the opaque error.
#[verifier::external_body]
pub(crate) fn json_error_text(e: &JsonSyntaxError) -> String {
    e.to_string()
}

/// Converts a `serde_json::Value` variant by variant; the conversion step of
/// [`parse_json`].
#[verifier::external_body]
fn json_value_from(v: serde_json::Value) -> JsonValue {
    match v {
        serde_json::Value::Null => JsonValue::Null,
        serde_json::Value::Bool(b) => JsonValue::Bool(b),
        serde_json::Value::Number(n) => JsonValue::Number(n.to_string()),
        serde_json::Value::String(s) => JsonValue::Str(s),
        serde_json::Value::Array(a) => JsonValue::Array(a.into_iter().map(json_value_from).collect()),
        serde_json::Value::Object(o) => JsonValue::Object(o.into_iter().map(|(k, x)| (k, json_value_from(x))).collect()),
    }
}

/// `serde_json::Value::get(i)`: element `i` of an array, `None` otherwise.
pub open spec fn json_element(v: JsonValue, i: int) -> Option<JsonValue> {
    match v {
        JsonValue::Array(items) => if 0 <= i < items@.len() {
            Some(items@[i])
        } else {
            None
        },
        _ => None,
    }
}

/// Element `i` of an array value.
pub fn json_get(v: &JsonValue, i: usize) -> (r: Option<&JsonValue>)
    ensures
        r matches Some(x) ==> json_element(*v, i as int) == Some(*x),
        r is None ==> json_element(*v, i as int) is None,
{
    match v {
        JsonValue::Array(items) => if i < items.len() {
            Some(&items[i])
        } else {
            None
        },
        _ => None,
    }
}

/// The string held by a string value.
pub fn json_as_str(v: &JsonValue) -> (r: Option<&String>)
    ensures
        r matches Some(s) ==> *v == JsonValue::Str(*s),
        r is None ==> !(*v is Str),
{
    match v {
        JsonValue::Str(s) => Some(s),
        _ => None,
    }
}

} // verus!
