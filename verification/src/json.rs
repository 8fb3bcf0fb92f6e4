//! Reading single values out of a JSON text. The text is parsed by
//! `serde_json`; a place in it is named by a JSON pointer such as
//! `/message/content/0/type`.
use vstd::prelude::*;

use crate::app::Usd;

verus! {

/// Whether `serde_json` parses the text as one JSON value.
pub uninterp spec fn json_parses(text: Seq<char>) -> bool;

/// The string that `serde_json` finds in the text at the pointer, if the text
/// is JSON and a string stands there.
pub uninterp spec fn json_string(text: Seq<char>, pointer: Seq<char>) -> Option<Seq<char>>;

/// The truth value that `serde_json` finds in the text at the pointer.
pub uninterp spec fn json_bool(text: Seq<char>, pointer: Seq<char>) -> Option<bool>;

/// The number that `serde_json` finds in the text at the pointer, as the bits
/// of a double.
pub uninterp spec fn json_number(text: Seq<char>, pointer: Seq<char>) -> Option<u64>;

/// The length of the array that `serde_json` finds in the text at the pointer.
pub uninterp spec fn json_array_len(text: Seq<char>, pointer: Seq<char>) -> Option<usize>;

/// `serde_json::from_str` into a `Value`: true when it succeeds. What it
/// accepts is named `json_parses`.
#[verifier::external_body]
pub(crate) fn is_json(text: &str) -> (r: bool)
    ensures
        r == json_parses(text@),
{
    serde_json::from_str::<serde_json::Value>(text).is_ok()
}

/// `serde_json::Value::pointer` on the parsed text, then `Value::as_str`. What
/// it finds is named `json_string`.
#[verifier::external_body]
pub(crate) fn string_at(text: &str, pointer: &str) -> (r: Option<String>)
    ensures
        crate::text::opt_view(r) == json_string(text@, pointer@),
{
    let value: serde_json::Value = serde_json::from_str(text).ok()?;
    value.pointer(pointer)?.as_str().map(|s| s.to_string())
}

/// `serde_json::Value::pointer` on the parsed text, then `Value::as_bool`.
/// What it finds is named `json_bool`.
#[verifier::external_body]
pub(crate) fn bool_at(text: &str, pointer: &str) -> (r: Option<bool>)
    ensures
        r == json_bool(text@, pointer@),
{
    let value: serde_json::Value = serde_json::from_str(text).ok()?;
    value.pointer(pointer)?.as_bool()
}

/// `serde_json::Value::pointer` on the parsed text, then `Value::as_f64`,
/// whose bits are returned. What it finds is named `json_number`.
#[verifier::external_body]
pub(crate) fn number_at(text: &str, pointer: &str) -> (r: Option<Usd>)
    ensures
        r == match json_number(text@, pointer@) {
            Some(bits) => Some(Usd { bits }),
            None => None,
        },
{
    let value: serde_json::Value = serde_json::from_str(text).ok()?;
    value.pointer(pointer)?.as_f64().map(|n| Usd { bits: n.to_bits() })
}

/// `serde_json::Value::pointer` on the parsed text, then `Value::as_array`,
/// whose length is returned. What it finds is named `json_array_len`.
#[verifier::external_body]
pub(crate) fn array_len_at(text: &str, pointer: &str) -> (r: Option<usize>)
    ensures
        r == json_array_len(text@, pointer@),
{
    let value: serde_json::Value = serde_json::from_str(text).ok()?;
    value.pointer(pointer)?.as_array().map(|a| a.len())
}

} // verus!
