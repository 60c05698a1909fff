//! JSON documents. A document is opaque here; what is known of it is its
//! compact text.

use vstd::prelude::*;

verus! {

/// A JSON document of `serde_json`.
#[verifier::external_type_specification]
#[verifier::external_body]
pub struct ExValue(serde_json::Value);

/// The compact JSON text of a document: what `serde_json::to_string` gives.
pub uninterp spec fn json_text(value: serde_json::Value) -> Seq<char>;

/// What `serde_json::from_str` makes of a text: the compact text of the
/// document that it holds, or the message of the error.
pub uninterp spec fn json_read(text: Seq<char>) -> Result<Seq<char>, Seq<char>>;

/// `Value::clone` gives an equal document.
pub assume_specification[ <serde_json::Value as Clone>::clone ](value: &serde_json::Value) -> (copy:
    serde_json::Value)
    ensures
        copy == *value,
;

/// `serde_json::to_string` on a document gives its compact text. It does not
/// fail: every key of a document is a string, every number in it is finite, and
/// the writer is memory.
#[verifier::external_body]
pub(crate) fn write_json(value: &serde_json::Value) -> (text: String)
    ensures
        text@ == json_text(*value),
{
    serde_json::to_string(value).expect("a document has string keys")
}

/// `serde_json::from_str` reads the document that a text holds, or says why the
/// text holds none. Which documents come back from their own text as they were
/// is left unsaid: the text of some floating-point numbers is read as a
/// neighbouring number, and nesting is limited.
#[verifier::external_body]
pub(crate) fn read_json(text: &str) -> (read: Result<serde_json::Value, String>)
    ensures
        match read {
            Ok(value) => json_read(text@) == Ok::<Seq<char>, Seq<char>>(json_text(value)),
            Err(message) => json_read(text@) == Err::<Seq<char>, Seq<char>>(message@),
        },
{
    serde_json::from_str(text).map_err(|error| error.to_string())
}

/// `serde_json::Map::new` makes the object without members.
#[verifier::external_body]
pub(crate) fn empty_object() -> (value: serde_json::Value)
    ensures
        json_text(value) == "{}"@,
{
    serde_json::Value::Object(serde_json::Map::new())
}

/// Whether JSON writes a character of a string as it is.
pub open spec fn unescaped(c: char) -> bool {
    c as u32 >= 0x20 && c != '"' && c != '\\'
}

/// The text of an object with one member.
pub open spec fn member_text(key: Seq<char>, value: Seq<char>) -> Seq<char> {
    "{\""@ + key + "\":"@ + value + "}"@
}

/// `serde_json::Map::insert` into the object without members gives the object
/// with that one member, whose text is stated for keys that need no escapes.
#[verifier::external_body]
pub(crate) fn object_with(key: &str, value: serde_json::Value) -> (object: serde_json::Value)
    requires
        forall|i: int| 0 <= i < key@.len() ==> unescaped(#[trigger] key@[i]),
    ensures
        json_text(object) == member_text(key@, json_text(value)),
{
    let mut members = serde_json::Map::new();
    members.insert(key.to_owned(), value);
    serde_json::Value::Object(members)
}

/// `Value::from` on a count gives its decimal notation.
#[verifier::external_body]
pub(crate) fn number_of(count: usize) -> (value: serde_json::Value)
    ensures
        json_text(value) == crate::text::decimal(count as nat),
{
    serde_json::Value::from(count)
}

/// `Value::from` on a truth value gives `true` or `false`.
#[verifier::external_body]
pub(crate) fn flag_of(flag: bool) -> (value: serde_json::Value)
    ensures
        json_text(value) == if flag { "true"@ } else { "false"@ },
{
    serde_json::Value::from(flag)
}

} // verus!
