//! JSON text read with serde_json, and its values as the library models them.

use vstd::prelude::*;

use crate::settings::{object_field, Json, JsonValue};

verus! {

/// A parse error of serde_json.
#[verifier::external_type_specification]
#[verifier::external_body]
pub struct ExJsonError(serde_json::Error);

/// The value that `serde_json::from_str` reads from a text; `None` where it
/// reports an error.
pub uninterp spec fn json_parse(text: Seq<char>) -> Option<serde_json::Value>;

/// Calls `serde_json::from_str` for a `serde_json::Value`. Claimed: success
/// and the value read are a function of the text alone.
#[verifier::external_body]
pub(crate) fn parse_json(text: &str) -> (r: Result<serde_json::Value, serde_json::Error>)
    ensures
        match r {
            Ok(v) => json_parse(text@) == Some(v),
            Err(_) => json_parse(text@) is None,
        },
{
    serde_json::from_str(text)
}

/// The library's model of a serde_json value: numbers by the text that
/// `Number` displays, arrays element by element, objects as the entries of
/// their map in the map's order.
pub uninterp spec fn json_value_model(value: serde_json::Value) -> Json;

/// Converts a serde_json value into the library's `JsonValue`, variant by
/// variant. Claimed: the result's model is `json_value_model` of the value.
#[verifier::external_body]
pub(crate) fn json_value_of(value: &serde_json::Value) -> (r: JsonValue)
    ensures
        r@ == json_value_model(*value),
{
    match value {
        serde_json::Value::Null => JsonValue::Null,
        serde_json::Value::Bool(b) => JsonValue::Bool(*b),
        serde_json::Value::Number(n) => JsonValue::Number(n.to_string()),
        serde_json::Value::String(s) => JsonValue::Str(s.clone()),
        serde_json::Value::Array(a) => JsonValue::Array(a.iter().map(json_value_of).collect()),
        serde_json::Value::Object(m) => JsonValue::Object(m.iter().map(|(k, x)| (k.clone(), json_value_of(x))).collect()),
    }
}

/// The member with this key that `Value::get` gives for a text key, cloned;
/// `None` for a missing key or a value that is not an object.
pub uninterp spec fn json_member(value: serde_json::Value, key: Seq<char>) -> Option<serde_json::Value>;

/// Calls `Value::get` with a text key and clones the member. Claimed: the
/// result is a function of the arguments, and it is, by model, the field of
/// the value's model with that key (a serde_json map holds each key once, so
/// that field is the only one with the key).
#[verifier::external_body]
pub(crate) fn json_get(value: &serde_json::Value, key: &str) -> (r: Option<serde_json::Value>)
    ensures
        r == json_member(*value, key@),
        match r {
            Some(m) => object_field(json_value_model(*value), key@) == Some(json_value_model(m)),
            None => object_field(json_value_model(*value), key@) is None,
        },
{
    value.get(key).cloned()
}

/// The text of a member that is a JSON string.
pub open spec fn text_member(value: serde_json::Value, key: Seq<char>) -> Option<Seq<char>> {
    match object_field(json_value_model(value), key) {
        Some(Json::Str(s)) => Some(s),
        _ => None,
    }
}

/// The text of the member with this key, where it is a JSON string.
pub(crate) fn text_field(value: &serde_json::Value, key: &str) -> (r: Option<String>)
    ensures
        match r {
            Some(s) => text_member(*value, key@) == Some(s@),
            None => text_member(*value, key@) is None,
        },
{
    match json_get(value, key) {
        Some(m) => match json_value_of(&m) {
            JsonValue::Str(s) => Some(s),
            _ => None,
        },
        None => None,
    }
}

/// A character with the Unicode `White_Space` property, those that
/// `char::is_whitespace` accepts and `str::trim` removes.
pub open spec fn is_white_space(c: char) -> bool {
    let u = c as u32;
    ||| 0x09 <= u <= 0x0d
    ||| u == 0x20 || u == 0x85 || u == 0xa0 || u == 0x1680
    ||| 0x2000 <= u <= 0x200a
    ||| u == 0x2028 || u == 0x2029 || u == 0x202f || u == 0x205f || u == 0x3000
}

/// A text of white space only (the empty text among them).
pub open spec fn is_blank(text: Seq<char>) -> bool {
    forall|i: int| 0 <= i < text.len() ==> is_white_space(#[trigger] text[i])
}

fn white_space(c: char) -> (r: bool)
    ensures
        r == is_white_space(c),
{
    let u = c as u32;
    (0x09 <= u && u <= 0x0d) || u == 0x20 || u == 0x85 || u == 0xa0 || u == 0x1680 || (0x2000 <= u && u <= 0x200a)
        || u == 0x2028 || u == 0x2029 || u == 0x202f || u == 0x205f || u == 0x3000
}

/// Whether the text holds white space only.
pub fn blank_text(text: &str) -> (r: bool)
    ensures
        r == is_blank(text@),
{
    broadcast use vstd::string::axiom_spec_iter;

    for c in it: text.chars()
        invariant
            it.seq() == text@,
            forall|i: int| 0 <= i < it.index() ==> is_white_space(#[trigger] text@[i]),
    {
        if !white_space(c) {
            return false;
        }
    }
    true
}

/// The settings held in the text of a settings file: an empty object for a
/// blank text, else the JSON value that the text holds, or serde_json's
/// error.
pub fn settings_from_text(content: &str) -> (r: Result<JsonValue, serde_json::Error>)
    ensures
        is_blank(content@) ==> (r matches Ok(j) && j@ == Json::Object(Seq::empty())),
        !is_blank(content@) ==> (r is Err <==> json_parse(content@) is None),
        !is_blank(content@) ==> (r matches Ok(j) ==> j@ == json_value_model(json_parse(content@)->Some_0)),
{
    if blank_text(content) {
        return Ok(JsonValue::Object(Vec::new()));
    }
    match parse_json(content) {
        Ok(v) => Ok(json_value_of(&v)),
        Err(e) => Err(e),
    }
}

} // verus!
