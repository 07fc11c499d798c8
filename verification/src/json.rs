//! JSON values of the `serde_json` crate, as the library carries them.

use crate::text;
use serde_json::Value as JsonValue;
use vstd::prelude::*;

verus! {

/// A JSON value of `serde_json`, opaque here.
#[verifier::external_type_specification]
#[verifier::external_body]
pub struct ExJsonValue(JsonValue);

/// An object map of `serde_json`, opaque here.
#[verifier::external_type_specification]
#[verifier::external_body]
#[verifier::reject_recursive_types(K)]
#[verifier::reject_recursive_types(V)]
pub struct ExJsonMap<K, V>(serde_json::Map<K, V>);

/// What `serde_json::to_string` returns for a list of values: the text, or the error's text.
pub uninterp spec fn json_list_text(items: Seq<JsonValue>) -> Result<Seq<char>, Seq<char>>;

/// What `serde_json::to_string` returns for an object: the text, or the error's text.
pub uninterp spec fn json_object_text(
    object: serde_json::Map<String, JsonValue>,
) -> Result<Seq<char>, Seq<char>>;

/// What `serde_json::from_str` returns for a list of values: the values, or the error's text.
pub uninterp spec fn json_list_of(text: Seq<char>) -> Result<Seq<JsonValue>, Seq<char>>;

/// What `serde_json::from_str` returns for an object: the object, or the error's text.
pub uninterp spec fn json_object_of(
    text: Seq<char>,
) -> Result<serde_json::Map<String, JsonValue>, Seq<char>>;

/// The value that `serde_json::from_slice` reads from bytes, if it reads one.
pub uninterp spec fn json_value_of(bytes: Seq<u8>) -> Option<JsonValue>;

/// The member of an object value that `serde_json::Value::get` returns for a key.
pub uninterp spec fn json_field(value: JsonValue, key: Seq<char>) -> Option<JsonValue>;

/// The text of a value, as `serde_json::Value::as_str` returns it.
pub uninterp spec fn json_str(value: JsonValue) -> Option<Seq<char>>;

/// The truth value of a value, as `serde_json::Value::as_bool` returns it.
pub uninterp spec fn json_bool(value: JsonValue) -> Option<bool>;

/// The elements of a value, as `serde_json::Value::as_array` returns them.
pub uninterp spec fn json_array(value: JsonValue) -> Option<Seq<JsonValue>>;

/// `serde_json::Value::clone`: the same value again.
#[verifier::external_body]
pub(crate) fn json_clone(value: &JsonValue) -> (r: JsonValue)
    ensures
        r == *value,
{
    value.clone()
}

/// `serde_json::Map::clone`: the same object again.
#[verifier::external_body]
pub(crate) fn json_object_clone(
    object: &serde_json::Map<String, JsonValue>,
) -> (r: serde_json::Map<String, JsonValue>)
    ensures
        r == *object,
{
    object.clone()
}

/// The value that `serde_json::Value::from` makes of a text.
pub uninterp spec fn json_of_text(text: Seq<char>) -> JsonValue;

/// The number value that `serde_json::Number::from_i128` makes of an integer that
/// JSON numbers hold.
pub uninterp spec fn json_of_int(n: int) -> JsonValue;

/// Whether JSON numbers hold an integer exactly.
pub open spec fn is_json_int(n: int) -> bool {
    i64::MIN <= n <= u64::MAX
}

/// The value that `serde_json::Value::from` makes of an optional boolean: null
/// where there is none.
pub uninterp spec fn json_of_flag(flag: Option<bool>) -> JsonValue;

/// The value that `serde_json::Value::from` makes of an object map.
pub uninterp spec fn json_of_object(object: serde_json::Map<String, JsonValue>) -> JsonValue;

/// `serde_json::Value::from` on a text: a value whose text it is.
#[verifier::external_body]
pub(crate) fn json_from_text(text: &str) -> (r: JsonValue)
    ensures
        r == json_of_text(text@),
        json_str(r) == Some(text@),
{
    JsonValue::from(text)
}

/// `serde_json::Number::from_i128`, as a value: there is one from the least
/// 64-bit integer up to the greatest unsigned one. The value is named, not spelled
/// out.
#[verifier::external_body]
pub(crate) fn json_from_int(n: i128) -> (r: Option<JsonValue>)
    ensures
        r == (if is_json_int(n as int) {
            Some(json_of_int(n as int))
        } else {
            None
        }),
{
    serde_json::Number::from_i128(n).map(JsonValue::Number)
}

/// `serde_json::Value::from` on an optional boolean: a value of that truth, or
/// null.
#[verifier::external_body]
pub(crate) fn json_from_flag(flag: Option<bool>) -> (r: JsonValue)
    ensures
        r == json_of_flag(flag),
        json_bool(r) == flag,
{
    JsonValue::from(flag)
}

/// `serde_json::Value::from` on an object map. The value is named, not spelled
/// out.
#[verifier::external_body]
pub(crate) fn json_from_object(object: serde_json::Map<String, JsonValue>) -> (r: JsonValue)
    ensures
        r == json_of_object(object),
{
    JsonValue::from(object)
}

/// How deep the arrays of plain values nest at most.
pub const PLAIN_DEPTH: usize = 100;

/// Whether a value is a text, an integer, a boolean or null, or an array of
/// such values that nests no deeper than a depth.
pub open spec fn is_plain(value: JsonValue, depth: nat) -> bool
    decreases depth,
{
    ||| exists|text: Seq<char>| value == #[trigger] json_of_text(text)
    ||| exists|n: int| is_json_int(n) && value == #[trigger] json_of_int(n)
    ||| exists|flag: Option<bool>| value == #[trigger] json_of_flag(flag)
    ||| depth > 0 && (json_array(value) matches Some(items) && forall|i: int|
        0 <= i < items.len() ==> is_plain(#[trigger] items[i], (depth - 1) as nat))
}

/// Whether every item of a list is plain.
pub open spec fn is_plain_list(items: Seq<JsonValue>) -> bool {
    forall|i: int| 0 <= i < items.len() ==> is_plain(#[trigger] items[i], PLAIN_DEPTH as nat)
}

/// Whether every member of an object is plain.
pub open spec fn is_plain_object(object: serde_json::Map<String, JsonValue>) -> bool {
    forall|key: Seq<char>|
        (#[trigger] json_field(json_of_object(object), key)) matches Some(value) ==> is_plain(
            value,
            PLAIN_DEPTH as nat,
        )
}

/// Whether a text was written from which a list is read again.
pub open spec fn writes_list(r: Result<String, String>, items: Seq<JsonValue>) -> bool {
    r matches Ok(text) && json_list_of(text@) == Ok::<Seq<JsonValue>, Seq<char>>(items)
}

/// Whether a text was written from which an object is read again.
pub open spec fn writes_object(
    r: Result<String, String>,
    object: serde_json::Map<String, JsonValue>,
) -> bool {
    r matches Ok(text) && json_object_of(text@) == Ok::<
        serde_json::Map<String, JsonValue>,
        Seq<char>,
    >(object)
}

/// `serde_json::to_string` on a list of values. What it returns is named, not
/// spelled out; of plain values it is a text that `serde_json::from_str` reads as
/// the same list. Nothing is said of reading back floats, whose text may be read
/// as a neighbouring number, objects within a list, one of whose keys is read
/// specially, and deeper arrays, which are refused.
#[verifier::external_body]
pub(crate) fn json_list_to_string(items: &Vec<JsonValue>) -> (r: Result<String, String>)
    ensures
        text::text_result(r) == json_list_text(items@),
        is_plain_list(items@) ==> writes_list(r, items@),
{
    match serde_json::to_string(items) {
        Ok(text) => Ok(text),
        Err(e) => Err(e.to_string()),
    }
}

/// `serde_json::to_string` on an object. What it returns is named, not spelled
/// out; of plain members it is a text that `serde_json::from_str` reads as the
/// same object. Of other members nothing is said, as for lists.
#[verifier::external_body]
pub(crate) fn json_object_to_string(
    object: &serde_json::Map<String, JsonValue>,
) -> (r: Result<String, String>)
    ensures
        text::text_result(r) == json_object_text(*object),
        is_plain_object(*object) ==> writes_object(r, *object),
{
    match serde_json::to_string(object) {
        Ok(text) => Ok(text),
        Err(e) => Err(e.to_string()),
    }
}

/// A result of values, seen as a sequence.
pub open spec fn list_result(r: Result<Vec<JsonValue>, String>) -> Result<
    Seq<JsonValue>,
    Seq<char>,
> {
    match r {
        Ok(items) => Ok(items@),
        Err(e) => Err(e@),
    }
}

/// A result of an object.
pub open spec fn object_result(
    r: Result<serde_json::Map<String, JsonValue>, String>,
) -> Result<serde_json::Map<String, JsonValue>, Seq<char>> {
    match r {
        Ok(object) => Ok(object),
        Err(e) => Err(e@),
    }
}

/// `serde_json::from_str` to a list of values. What it returns is named, not spelled out.
#[verifier::external_body]
pub(crate) fn json_list_from_str(text: &str) -> (r: Result<Vec<JsonValue>, String>)
    ensures
        list_result(r) == json_list_of(text@),
{
    match serde_json::from_str(text) {
        Ok(items) => Ok(items),
        Err(e) => Err(e.to_string()),
    }
}

/// `serde_json::from_str` to an object. What it returns is named, not spelled out.
#[verifier::external_body]
pub(crate) fn json_object_from_str(
    text: &str,
) -> (r: Result<serde_json::Map<String, JsonValue>, String>)
    ensures
        object_result(r) == json_object_of(text@),
{
    match serde_json::from_str(text) {
        Ok(object) => Ok(object),
        Err(e) => Err(e.to_string()),
    }
}

/// An optional borrowed value, as a value.
pub open spec fn value_option(o: Option<&JsonValue>) -> Option<JsonValue> {
    match o {
        Some(value) => Some(*value),
        None => None,
    }
}

/// An optional borrowed text, seen as characters.
pub open spec fn str_option(o: Option<&str>) -> Option<Seq<char>> {
    match o {
        Some(s) => Some(s@),
        None => None,
    }
}

/// An optional borrowed list, seen as a sequence.
pub open spec fn list_option(o: Option<&Vec<JsonValue>>) -> Option<Seq<JsonValue>> {
    match o {
        Some(items) => Some(items@),
        None => None,
    }
}

/// `serde_json::from_slice` to a value. What it reads is named, not spelled out;
/// why it fails is left out.
#[verifier::external_body]
pub(crate) fn json_from_slice(bytes: &[u8]) -> (r: Option<JsonValue>)
    ensures
        r == json_value_of(bytes@),
{
    match serde_json::from_slice(bytes) {
        Ok(value) => Some(value),
        Err(_) => None,
    }
}

/// `serde_json::Value::get` with a key. What it returns is named, not spelled out.
#[verifier::external_body]
pub(crate) fn json_get<'a>(value: &'a JsonValue, key: &str) -> (r: Option<&'a JsonValue>)
    ensures
        value_option(r) == json_field(*value, key@),
{
    value.get(key)
}

/// `serde_json::Value::as_str`. What it returns is named, not spelled out.
#[verifier::external_body]
pub(crate) fn json_as_str(value: &JsonValue) -> (r: Option<&str>)
    ensures
        str_option(r) == json_str(*value),
{
    value.as_str()
}

/// `serde_json::Value::as_bool`. What it returns is named, not spelled out.
#[verifier::external_body]
pub(crate) fn json_as_bool(value: &JsonValue) -> (r: Option<bool>)
    ensures
        r == json_bool(*value),
{
    value.as_bool()
}

/// `serde_json::Value::as_array`. What it returns is named, not spelled out.
#[verifier::external_body]
pub(crate) fn json_as_array(value: &JsonValue) -> (r: Option<&Vec<JsonValue>>)
    ensures
        list_option(r) == json_array(*value),
{
    value.as_array()
}

} // verus!
