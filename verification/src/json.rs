//! Looking into JSON text.
use vstd::prelude::*;

verus! {

/// The text is JSON.
pub uninterp spec fn is_json(text: Seq<char>) -> bool;

/// The member of the object that the text holds, in JSON.
pub uninterp spec fn member_of(text: Seq<char>, name: Seq<char>) -> Option<Seq<char>>;

/// The items of the array that the text holds, each in JSON.
pub uninterp spec fn items_of(text: Seq<char>) -> Option<Seq<Seq<char>>>;

/// The string that the text holds.
pub uninterp spec fn string_of(text: Seq<char>) -> Option<Seq<char>>;

/// `serde_json::from_str` into a value of any shape: whether the text is JSON.
#[verifier::external_body]
pub(crate) fn parses(text: &str) -> (r: bool)
    ensures
        r == is_json(text@),
{
    serde_json::from_str::<serde_json::Value>(text).is_ok()
}

/// `Value::get` with a name: the member of the object that the text holds, written
/// as JSON; nothing if the text is not JSON, holds no object, or the object has no
/// such member.
#[verifier::external_body]
pub(crate) fn member(text: &str, name: &str) -> (r: Option<String>)
    ensures
        crate::text::optional_text(r) == member_of(text@, name@),
{
    let value = serde_json::from_str::<serde_json::Value>(text).ok()?;
    value.get(name).map(|v| v.to_string())
}

pub open spec fn texts(v: Seq<String>) -> Seq<Seq<char>> {
    Seq::new(v.len(), |i: int| v[i]@)
}

/// `Value::as_array`: the items of the array that the text holds, each written as
/// JSON; nothing if the text is not JSON or holds no array.
#[verifier::external_body]
pub(crate) fn items(text: &str) -> (r: Option<Vec<String>>)
    ensures
        items_of(text@) == match r {
            Some(v) => Some(texts(v@)),
            None => None,
        },
{
    let value = serde_json::from_str::<serde_json::Value>(text).ok()?;
    value.as_array().map(|a| a.iter().map(|v| v.to_string()).collect())
}

/// `Value::as_str`: the string that the text holds; nothing if the text is not JSON
/// or holds no string.
#[verifier::external_body]
pub(crate) fn string(text: &str) -> (r: Option<String>)
    ensures
        crate::text::optional_text(r) == string_of(text@),
{
    let value = serde_json::from_str::<serde_json::Value>(text).ok()?;
    value.as_str().map(|s| s.to_string())
}

} // verus!
