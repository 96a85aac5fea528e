//! What a line of JSON says under a name.

use crate::text::opt_text;
use vstd::prelude::*;

verus! {

/// What is wrong with a line that is no JSON, in words.
pub uninterp spec fn json_fault_of(line: Seq<char>) -> Option<Seq<char>>;

/// The text that an object has under a name.
pub uninterp spec fn json_text_of(line: Seq<char>, field: Seq<char>) -> Option<Seq<char>>;

/// The yes or no that an object has under a name.
pub uninterp spec fn json_flag_of(line: Seq<char>, field: Seq<char>) -> Option<bool>;

/// The texts that the objects of a list have under a name, where an object has
/// the list under another.
pub uninterp spec fn json_list_of(line: Seq<char>, list: Seq<char>, field: Seq<char>) -> Option<
    Seq<Option<Seq<char>>>,
>;

/// Texts that may be missing.
pub open spec fn opt_texts(v: Seq<Option<String>>) -> Seq<Option<Seq<char>>> {
    Seq::new(v.len(), |i: int| opt_text(v[i]))
}

/// `serde_json::from_str` into a `Value`: the message of its error, if the line is
/// no JSON. It depends on the line alone.
#[verifier::external_body]
pub(crate) fn json_fault(line: &str) -> (r: Option<String>)
    ensures
        opt_text(r) == json_fault_of(line@),
{
    serde_json::from_str::<serde_json::Value>(line).err().map(|e| format!("{}", e))
}

/// `serde_json::from_str` and `Value::as_str` of the value under a name: the text
/// that is there, if the line is an object that has one. It depends on the line
/// and on the name alone, and there is none in a line that is no JSON.
#[verifier::external_body]
pub(crate) fn json_text(line: &str, field: &str) -> (r: Option<String>)
    ensures
        opt_text(r) == json_text_of(line@, field@),
        r is Some ==> json_fault_of(line@) is None,
{
    let value: serde_json::Value = serde_json::from_str(line).ok()?;
    value[field].as_str().map(|s| s.to_string())
}

/// `serde_json::from_str` and `Value::as_bool` of the value under a name, likewise.
#[verifier::external_body]
pub(crate) fn json_flag(line: &str, field: &str) -> (r: Option<bool>)
    ensures
        r == json_flag_of(line@, field@),
        r is Some ==> json_fault_of(line@) is None,
{
    let value: serde_json::Value = serde_json::from_str(line).ok()?;
    value[field].as_bool()
}

/// `serde_json::from_str` and `Value::as_array` of the value under a name, and
/// `Value::as_str` of what its items have under another, likewise.
#[verifier::external_body]
pub(crate) fn json_list(line: &str, list: &str, field: &str) -> (r: Option<Vec<Option<String>>>)
    ensures
        r is Some <==> json_list_of(line@, list@, field@) is Some,
        r is Some ==> opt_texts(r->0@) == json_list_of(line@, list@, field@)->0,
        r is Some ==> json_fault_of(line@) is None,
{
    let value: serde_json::Value = serde_json::from_str(line).ok()?;
    let items = value[list].as_array()?;
    Some(items.iter().map(|item| item[field].as_str().map(|s| s.to_string())).collect())
}

} // verus!
