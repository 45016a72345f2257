//! The calls into `serde_json` that the readers of this crate make. Each
//! wrapper parses the document text and reads one value out of it; what it
//! reads is named as a function of the text, so that the readers' contracts
//! can say which value of the document each result holds.
use vstd::prelude::*;

verus! {

/// Whether `serde_json` accepts the text as one JSON document.
pub uninterp spec fn json_parses(text: Seq<char>) -> bool;

/// The string member `key` of the document's top-level object.
pub uninterp spec fn json_top_str(text: Seq<char>, key: Seq<char>) -> Option<Seq<char>>;

/// The member `key` of the document's top-level object, where it is an
/// integer that fits in a `u64`.
pub uninterp spec fn json_top_u64(text: Seq<char>, key: Seq<char>) -> Option<u64>;

/// The length of the array member `key` of the document's top-level object.
pub uninterp spec fn json_array_len(text: Seq<char>, key: Seq<char>) -> Option<nat>;

/// The string member `field` of item `i` of the array member `key`.
pub uninterp spec fn json_item_str(text: Seq<char>, key: Seq<char>, i: int, field: Seq<char>) -> Option<Seq<char>>;

/// The member `field` of item `i` of the array member `key`, where it is an
/// integer that fits in a `u64`.
pub uninterp spec fn json_item_u64(text: Seq<char>, key: Seq<char>, i: int, field: Seq<char>) -> Option<u64>;

/// The number member `field` of item `i` of the array member `key`, cut to a
/// whole `u32`.
pub uninterp spec fn json_item_whole_u32(text: Seq<char>, key: Seq<char>, i: int, field: Seq<char>) -> Option<u32>;

pub open spec fn opt_seq(o: Option<String>) -> Option<Seq<char>> {
    match o {
        Some(s) => Some(s@),
        None => None,
    }
}

/// Relies on `serde_json::from_str::<Value>`: whether it succeeds depends on
/// the text alone (one well-formed document, within the parser's nesting
/// limit).
#[verifier::external_body]
pub(crate) fn json_valid(text: &str) -> (r: bool)
    ensures
        r == json_parses(text@),
{
    serde_json::from_str::<serde_json::Value>(text).is_ok()
}

/// Relies on `serde_json::from_str::<Value>`, `Value::get` and
/// `Value::as_str`: the string member `key` of the top-level object.
#[verifier::external_body]
pub(crate) fn top_str(text: &str, key: &str) -> (r: Option<String>)
    ensures
        opt_seq(r) == json_top_str(text@, key@),
        !json_parses(text@) ==> r is None,
{
    let v = serde_json::from_str::<serde_json::Value>(text).ok()?;
    v.get(key)?.as_str().map(|s| s.to_string())
}

/// Relies on `serde_json::from_str::<Value>`, `Value::get` and
/// `Value::as_u64`: the integer member `key` of the top-level object.
#[verifier::external_body]
pub(crate) fn top_u64(text: &str, key: &str) -> (r: Option<u64>)
    ensures
        r == json_top_u64(text@, key@),
        !json_parses(text@) ==> r is None,
{
    let v = serde_json::from_str::<serde_json::Value>(text).ok()?;
    v.get(key)?.as_u64()
}

/// Relies on `serde_json::from_str::<Value>`, `Value::get` and
/// `Value::as_array`: the length of the array member `key`.
#[verifier::external_body]
pub(crate) fn array_len(text: &str, key: &str) -> (r: Option<usize>)
    ensures
        json_array_len(text@, key@) == match r {
            Some(n) => Some(n as nat),
            None => None::<nat>,
        },
        !json_parses(text@) ==> r is None,
{
    let v = serde_json::from_str::<serde_json::Value>(text).ok()?;
    v.get(key)?.as_array().map(|a| a.len())
}

/// Relies on `serde_json::from_str::<Value>`, `Value::get`, `Value::as_array`
/// and `Value::as_str`: the string member `field` of item `i` of array `key`.
#[verifier::external_body]
pub(crate) fn item_str(text: &str, key: &str, i: usize, field: &str) -> (r: Option<String>)
    ensures
        opt_seq(r) == json_item_str(text@, key@, i as int, field@),
{
    let v = serde_json::from_str::<serde_json::Value>(text).ok()?;
    v.get(key)?.as_array()?.get(i)?.get(field)?.as_str().map(|s| s.to_string())
}

/// Relies on `serde_json::from_str::<Value>`, `Value::get`, `Value::as_array`
/// and `Value::as_u64`: the integer member `field` of item `i` of array `key`.
#[verifier::external_body]
pub(crate) fn item_u64(text: &str, key: &str, i: usize, field: &str) -> (r: Option<u64>)
    ensures
        r == json_item_u64(text@, key@, i as int, field@),
{
    let v = serde_json::from_str::<serde_json::Value>(text).ok()?;
    v.get(key)?.as_array()?.get(i)?.get(field)?.as_u64()
}

/// Relies on `serde_json::from_str::<Value>`, `Value::get`, `Value::as_array`
/// and `Value::as_f64`: the number member `field` of item `i` of array `key`,
/// cut to a whole `u32` by `as` (which rounds toward zero and saturates).
#[verifier::external_body]
pub(crate) fn item_whole_u32(text: &str, key: &str, i: usize, field: &str) -> (r: Option<u32>)
    ensures
        r == json_item_whole_u32(text@, key@, i as int, field@),
{
    let v = serde_json::from_str::<serde_json::Value>(text).ok()?;
    v.get(key)?.as_array()?.get(i)?.get(field)?.as_f64().map(|f| f as u32)
}

} // verus!
