//! Reading the arguments of a tool call, which the model writes as JSON.

use vstd::prelude::*;

verus! {

/// What `serde_json` reads from the text `text` for the member `key`: the
/// parser's message when `text` is not JSON, else the member's string value,
/// `None` when `text` is not an object with a string member `key`.
pub uninterp spec fn json_string_member(text: Seq<char>, key: Seq<char>) -> Result<Option<Seq<char>>, Seq<char>>;

/// The model of a result of [`string_member`].
pub open spec fn member_view(r: Result<Option<String>, String>) -> Result<Option<Seq<char>>, Seq<char>> {
    match r {
        Ok(Some(s)) => Ok(Some(s@)),
        Ok(None) => Ok(None),
        Err(m) => Err(m@),
    }
}

/// Parses `text` with `serde_json::from_str` into a `serde_json::Value` and
/// reads its member `key` with `Value::as_str`.
///
/// Trusted: the result is what `serde_json` gives for these arguments (the
/// error's display text when parsing fails). Which texts parse, and to what,
/// is not stated.
#[verifier::external_body]
pub fn string_member(text: &str, key: &str) -> (r: Result<Option<String>, String>)
    ensures
        member_view(r) == json_string_member(text@, key@),
{
    match serde_json::from_str::<serde_json::Value>(text) {
        Ok(v) => Ok(v[key].as_str().map(|s| s.to_owned())),
        Err(e) => Err(e.to_string()),
    }
}

} // verus!
