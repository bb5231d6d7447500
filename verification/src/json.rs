//! Reading fields of JSON documents with `serde_json`.
use serde_json::Value;
use vstd::prelude::*;

use crate::report::collect::opt_view_string;

verus! {

/// `None` when `text` is a JSON document `serde_json` accepts, else the
/// message of its parse error.
pub uninterp spec fn json_parse_error(text: Seq<char>) -> Option<Seq<char>>;

/// The string at top-level key `key` of the JSON document `text`.
pub uninterp spec fn json_str_field(text: Seq<char>, key: Seq<char>) -> Option<Seq<char>>;

/// The boolean at top-level key `key` of the JSON document `text`.
pub uninterp spec fn json_bool_field(text: Seq<char>, key: Seq<char>) -> Option<bool>;

/// The string at `outer`.`inner` of the JSON document `text`.
pub uninterp spec fn json_str_path(text: Seq<char>, outer: Seq<char>, inner: Seq<char>) -> Option<
    Seq<char>,
>;

/// Whether the JSON document `text` parses to an object.
pub uninterp spec fn json_is_object(text: Seq<char>) -> bool;

/// The JSON object `doc` with `key` set to the JSON value `value`, written
/// out compactly.
pub uninterp spec fn json_with_key(doc: Seq<char>, key: Seq<char>, value: Seq<char>) -> Seq<char>;

/// The JSON object with `k1` set to the JSON value `v1`, then `k2` set to
/// the JSON value `v2`, written out compactly.
pub uninterp spec fn json_object2(k1: Seq<char>, v1: Seq<char>, k2: Seq<char>, v2: Seq<char>) -> Seq<
    char,
>;

/// `serde_json::from_str::<Value>`: `None` when `text` parses, else the
/// parse error's message (its `Display`), named `json_parse_error`.
#[verifier::external_body]
pub(crate) fn parse_error(text: &str) -> (r: Option<String>)
    ensures
        opt_view_string(r) == json_parse_error(text@),
{
    match serde_json::from_str::<Value>(text) {
        Ok(_) => None,
        Err(e) => Some(e.to_string()),
    }
}

/// `serde_json::from_str::<Value>`, then `get(key)` and its string value: the
/// string at top-level `key`, named `json_str_field`; nothing when `text`
/// does not parse.
#[verifier::external_body]
pub(crate) fn str_field(text: &str, key: &str) -> (r: Option<String>)
    ensures
        opt_view_string(r) == json_str_field(text@, key@),
        json_parse_error(text@) is Some ==> r is None,
{
    match serde_json::from_str::<Value>(text) {
        Ok(v) => match v.get(key) {
            Some(Value::String(s)) => Some(s.clone()),
            _ => None,
        },
        Err(_) => None,
    }
}

/// `serde_json::from_str::<Value>`, then `get(key)` and its boolean value: the
/// boolean at top-level `key`, named `json_bool_field`; nothing when
/// `text` does not parse.
#[verifier::external_body]
pub(crate) fn bool_field(text: &str, key: &str) -> (r: Option<bool>)
    ensures
        r == json_bool_field(text@, key@),
        json_parse_error(text@) is Some ==> r is None,
{
    match serde_json::from_str::<Value>(text) {
        Ok(v) => match v.get(key) {
            Some(Value::Bool(b)) => Some(*b),
            _ => None,
        },
        Err(_) => None,
    }
}

/// `serde_json::from_str::<Value>`, then `get(outer)`, `get(inner)` and
/// its string value: the string at `outer`.`inner`, named `json_str_path`;
/// nothing when `text` does not parse.
#[verifier::external_body]
pub(crate) fn str_path(text: &str, outer: &str, inner: &str) -> (r: Option<String>)
    ensures
        opt_view_string(r) == json_str_path(text@, outer@, inner@),
        json_parse_error(text@) is Some ==> r is None,
{
    match serde_json::from_str::<Value>(text) {
        Ok(v) => match v.get(outer) {
            Some(o) => match o.get(inner) {
                Some(Value::String(s)) => Some(s.clone()),
                _ => None,
            },
            None => None,
        },
        Err(_) => None,
    }
}

/// `serde_json::from_str::<Value>`, then `Value::is_object`: whether
/// `text` parses to an object, named `json_is_object`; such a text parses.
#[verifier::external_body]
pub(crate) fn is_object(text: &str) -> (b: bool)
    ensures
        b == json_is_object(text@),
        b ==> json_parse_error(text@) is None,
{
    match serde_json::from_str::<Value>(text) {
        Ok(v) => v.is_object(),
        Err(_) => false,
    }
}

/// `serde_json::from_str::<Value>` of both texts, `IndexMut` with `key` on
/// the parsed object and `Value`'s `Display`: the object `doc` with `key`
/// set to `value`, named `json_with_key`. `IndexMut` panics on a value that
/// is not an object (or null), hence the first `requires`.
#[verifier::external_body]
pub(crate) fn with_key(doc: &str, key: &str, value: &str) -> (r: String)
    requires
        json_is_object(doc@),
        json_parse_error(value@) is None,
    ensures
        r@ == json_with_key(doc@, key@, value@),
{
    let mut root: Value = serde_json::from_str(doc).unwrap_or(Value::Null);
    root[key] = serde_json::from_str(value).unwrap_or(Value::Null);
    root.to_string()
}

/// `IndexMut` with `k1`, then with `k2`, on `Value::Null` (which makes it
/// an object), each set to the parsed value, and `Value`'s `Display`: named
/// `json_object2`.
#[verifier::external_body]
pub(crate) fn object2(k1: &str, v1: &str, k2: &str, v2: &str) -> (r: String)
    requires
        json_parse_error(v1@) is None,
        json_parse_error(v2@) is None,
    ensures
        r@ == json_object2(k1@, v1@, k2@, v2@),
{
    let mut root = Value::Null;
    root[k1] = serde_json::from_str(v1).unwrap_or(Value::Null);
    root[k2] = serde_json::from_str(v2).unwrap_or(Value::Null);
    root.to_string()
}

} // verus!
