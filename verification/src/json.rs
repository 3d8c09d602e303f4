//! The JSON values that pass through the service, kept opaque, and the few
//! `serde_json` calls that the service's logic makes on them.
use vstd::prelude::*;

verus! {

/// A JSON value as `serde_json` holds it; the library carries it without looking inside.
#[verifier::external_type_specification]
#[verifier::external_body]
pub struct ExJsonValue(serde_json::Value);

/// The error that `serde_json` reports for text it cannot parse.
#[verifier::external_type_specification]
#[verifier::external_body]
pub struct ExJsonError(serde_json::Error);

/// What `serde_json::from_str::<serde_json::Value>` makes of `text`: the JSON
/// value it holds, or the error it reports where `text` is not one JSON value
/// (with white space around it) within the parser's nesting limit.
pub uninterp spec fn json_parse(text: Seq<char>) -> Result<serde_json::Value, serde_json::Error>;

/// The text that `serde_json::Error`'s `Display` implementation writes for `error`.
pub uninterp spec fn json_error_text(error: serde_json::Error) -> Seq<char>;

/// Which variant of `serde_json::Value` holds `value`.
pub uninterp spec fn json_kind_of(value: serde_json::Value) -> JsonKind;

/// The number of elements of `value` where it is an array (`Value::as_array`), else `None`.
pub uninterp spec fn json_array_len_of(value: serde_json::Value) -> Option<usize>;

/// The kinds of JSON value, one per variant of `serde_json::Value`.
#[derive(PartialEq, Eq, Structural, Clone, Copy, Debug)]
pub enum JsonKind {
    Null,
    Bool,
    Number,
    String,
    Array,
    Object,
}

/// Parses `text` with `serde_json::from_str`. The contract claims that the
/// value or error it returns depends on the text alone.
#[verifier::external_body]
pub(crate) fn parse_json_text(text: &str) -> (r: Result<serde_json::Value, serde_json::Error>)
    ensures
        r == json_parse(text@),
{
    serde_json::from_str::<serde_json::Value>(text)
}

/// The message of a `serde_json::Error`, through its `Display` implementation.
/// The contract claims only that the text depends on the error alone.
#[verifier::external_body]
pub(crate) fn json_error_message(error: &serde_json::Error) -> (r: String)
    ensures
        r@ == json_error_text(*error),
{
    error.to_string()
}

/// What `serde_json::Value::get` gives for `key`: the member `key` of the
/// value where it is an object that has one, else `None`.
pub uninterp spec fn json_get(value: serde_json::Value, key: Seq<char>) -> Option<serde_json::Value>;

/// What `serde_json::Value::as_bool` gives: the boolean the value is, where it
/// is one, else `None`.
pub uninterp spec fn json_bool(value: serde_json::Value) -> Option<bool>;

/// The member `key` of `value`, where `value` is an object that has one
/// (`serde_json::Value::get`). The contract claims only that the result is a
/// function of the value and the key; which member it is stays unmodelled.
#[verifier::external_body]
pub(crate) fn json_member<'a>(value: &'a serde_json::Value, key: &str) -> (r: Option<&'a serde_json::Value>)
    ensures
        match r {
            Some(m) => json_get(*value, key@) == Some(*m),
            None => json_get(*value, key@) is None,
        },
{
    value.get(key)
}

/// The boolean that `value` is, where it is one (`serde_json::Value::as_bool`).
/// The contract claims only that the result is a function of the value.
#[verifier::external_body]
pub(crate) fn json_as_bool(value: &serde_json::Value) -> (r: Option<bool>)
    ensures
        r == json_bool(*value),
{
    value.as_bool()
}

/// The boolean member `key` of a JSON object.
pub open spec fn json_bool_member_spec(value: serde_json::Value, key: Seq<char>) -> Option<bool> {
    match json_get(value, key) {
        Some(member) => json_bool(member),
        None => None,
    }
}

/// The member `key` of `value` where `value` is an object whose member `key`
/// is a boolean: the boolean, where there is such a member, else `None`.
pub(crate) fn json_bool_member(value: &serde_json::Value, key: &str) -> (r: Option<bool>)
    ensures
        r == json_bool_member_spec(*value, key@),
{
    match json_member(value, key) {
        Some(member) => json_as_bool(member),
        None => None,
    }
}

/// Which variant of `serde_json::Value` holds `value`. The contract claims only
/// that the result depends on the value alone.
#[verifier::external_body]
pub(crate) fn json_kind(value: &serde_json::Value) -> (r: JsonKind)
    ensures
        r == json_kind_of(*value),
{
    match value {
        serde_json::Value::Null => JsonKind::Null,
        serde_json::Value::Bool(_) => JsonKind::Bool,
        serde_json::Value::Number(_) => JsonKind::Number,
        serde_json::Value::String(_) => JsonKind::String,
        serde_json::Value::Array(_) => JsonKind::Array,
        serde_json::Value::Object(_) => JsonKind::Object,
    }
}

/// The number of elements of `value` where it is an array
/// (`serde_json::Value::as_array`). The contract claims only that the result
/// depends on the value alone.
#[verifier::external_body]
pub(crate) fn json_array_len(value: &serde_json::Value) -> (r: Option<usize>)
    ensures
        r == json_array_len_of(*value),
{
    match value.as_array() {
        Some(elements) => Some(elements.len()),
        None => None,
    }
}

/// The number of elements of the array member `key` of a JSON object.
pub open spec fn json_array_member_len_spec(value: serde_json::Value, key: Seq<char>) -> Option<usize> {
    match json_get(value, key) {
        Some(member) => json_array_len_of(member),
        None => None,
    }
}

/// The number of elements of the member `key` of `value`, where `value` is an
/// object whose member `key` is an array.
pub(crate) fn json_array_member_len(value: &serde_json::Value, key: &str) -> (r: Option<usize>)
    ensures
        r == json_array_member_len_spec(*value, key@),
{
    match json_member(value, key) {
        Some(member) => json_array_len(member),
        None => None,
    }
}

} // verus!
