//! Reading replies in JSON.

use vstd::prelude::*;

use crate::lines::strs;
use crate::text::{replace, replace_all};
use crate::tree::opt_text;

verus! {

/// The message of the error with which `serde_json::from_slice` refuses some bytes; none where they
/// are JSON.
pub uninterp spec fn json_fault(body: Seq<u8>) -> Option<Seq<char>>;

/// The text that `serde_json::Value::pointer` finds in some bytes of JSON.
pub uninterp spec fn json_text_at(body: Seq<u8>, pointer: Seq<char>) -> Option<Seq<char>>;

/// The length of the array that `serde_json::Value::pointer` finds in some bytes of JSON.
pub uninterp spec fn json_len_at(body: Seq<u8>, pointer: Seq<char>) -> Option<nat>;

/// The keys of the object that `serde_json::Value::pointer` finds in some bytes of JSON, in the order
/// in which `serde_json::Map::keys` gives them.
pub uninterp spec fn json_keys_at(body: Seq<u8>, pointer: Seq<char>) -> Option<Seq<Seq<char>>>;

/// Whether `serde_json::Value::pointer` finds a value in some bytes of JSON.
pub uninterp spec fn json_has_at(body: Seq<u8>, pointer: Seq<char>) -> bool;

/// `serde_json::from_slice`: the message of the error for bytes that are not JSON, which depends on
/// the bytes alone.
#[verifier::external_body]
pub(crate) fn json_error(body: &[u8]) -> (r: Option<String>)
    ensures
        opt_text(r) == json_fault(body@),
{
    match serde_json::from_slice::<serde_json::Value>(body) {
        Ok(_) => None,
        Err(e) => Some(e.to_string()),
    }
}

/// `serde_json::from_slice`, `serde_json::Value::pointer` and `serde_json::Value::as_str`: the text
/// at a place in some bytes of JSON, which depends on the bytes and the place alone.
#[verifier::external_body]
pub(crate) fn json_str(body: &[u8], pointer: &str) -> (r: Option<String>)
    ensures
        opt_text(r) == json_text_at(body@, pointer@),
{
    let value: serde_json::Value = serde_json::from_slice(body).ok()?;
    value.pointer(pointer)?.as_str().map(str::to_owned)
}

/// `serde_json::from_slice`, `serde_json::Value::pointer` and `serde_json::Value::as_array`: the
/// length of the array at a place in some bytes of JSON, which depends on the bytes and the place
/// alone.
#[verifier::external_body]
pub(crate) fn json_array_len(body: &[u8], pointer: &str) -> (r: Option<usize>)
    ensures
        match r {
            Some(n) => json_len_at(body@, pointer@) == Some(n as nat),
            None => json_len_at(body@, pointer@) is None,
        },
{
    let value: serde_json::Value = serde_json::from_slice(body).ok()?;
    value.pointer(pointer)?.as_array().map(Vec::len)
}

/// `serde_json::from_slice`, `serde_json::Value::pointer`, `serde_json::Value::as_object` and
/// `serde_json::Map::keys`: the keys of the object at a place in some bytes of JSON, which depend on
/// the bytes and the place alone.
#[verifier::external_body]
pub(crate) fn json_object_keys(body: &[u8], pointer: &str) -> (r: Option<Vec<String>>)
    ensures
        match r {
            Some(keys) => json_keys_at(body@, pointer@) == Some(strs(keys@)),
            None => json_keys_at(body@, pointer@) is None,
        },
{
    let value: serde_json::Value = serde_json::from_slice(body).ok()?;
    let object = value.pointer(pointer)?.as_object()?;
    Some(object.keys().cloned().collect())
}

/// `serde_json::from_slice` and `serde_json::Value::pointer`: whether some bytes of JSON have a value
/// at a place, which depends on the bytes and the place alone.
#[verifier::external_body]
pub(crate) fn json_has(body: &[u8], pointer: &str) -> (r: bool)
    ensures
        r == json_has_at(body@, pointer@),
{
    match serde_json::from_slice::<serde_json::Value>(body) {
        Ok(value) => value.pointer(pointer).is_some(),
        Err(_) => false,
    }
}

/// A key as it stands in a JSON pointer.
pub open spec fn pointer_token(key: Seq<char>) -> Seq<char> {
    replace_all(replace_all(key, "~"@, "~0"@), "/"@, "~1"@)
}

/// A key as it stands in a JSON pointer.
pub fn escape_pointer(key: &str) -> (r: String)
    ensures
        r@ == pointer_token(key@),
{
    proof {
        reveal_strlit("~");
        reveal_strlit("/");
    }
    replace(&replace(key, "~", "~0"), "/", "~1")
}

} // verus!
