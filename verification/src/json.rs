//! The JSON codec the cache uses for keys and values: `serde_json`, reached
//! through a handful of declarations whose contracts are taken on trust.

use vstd::prelude::*;

verus! {

/// `serde_json::Error`, carried through as an opaque value.
#[verifier::external_type_specification]
#[verifier::external_body]
pub struct ExJsonError(serde_json::Error);

/// The JSON text that `serde_json::to_string` produces for a string.
pub uninterp spec fn json_text(s: Seq<char>) -> Seq<char>;

/// The string that `serde_json::from_str` reads from a text, if it reads one.
pub uninterp spec fn json_parse(text: Seq<char>) -> Option<Seq<char>>;

/// A string survives the codec: its JSON text parses back to the string
/// and holds no character below U+0020, so no line feed and no carriage
/// return.
pub open spec fn reads_back(s: Seq<char>) -> bool {
    &&& json_parse(json_text(s)) == Some(s)
    &&& forall|i: int| 0 <= i < json_text(s).len() ==> json_text(s)[i] >= ' '
}

/// Calls `serde_json::to_string` on a string.
///
/// Trusted: the call succeeds and returns the text named `json_text`. A
/// string is serialized by writing into a byte vector, and the only errors
/// on that path are those of the writer, which a vector never gives. The
/// text holds no character below U+0020: the serializer writes the string
/// between two quotes and escapes each of U+0000 to U+001F, the quote and
/// the backslash. `serde_json::from_str` reads the same string back from
/// it: the parser undoes exactly these escapes and copies every other
/// character.
#[verifier::external_body]
pub(crate) fn encode(s: &String) -> (r: Result<String, serde_json::Error>)
    ensures
        r is Ok,
        r matches Ok(t) ==> t@ == json_text(s@) && reads_back(s@),
{
    serde_json::to_string(s)
}

/// Calls `serde_json::from_str` to read one string from a JSON text.
///
/// Trusted: the outcome depends on the text alone, so it is the value named
/// `json_parse`; `Err` stands for "no string".
#[verifier::external_body]
pub(crate) fn decode(text: &str) -> (r: Result<String, serde_json::Error>)
    ensures
        match r {
            Ok(s) => json_parse(text@) == Some(s@),
            Err(_) => json_parse(text@).is_none(),
        },
{
    serde_json::from_str::<String>(text)
}

/// Calls `serde_json::Error::custom`, the constructor that serde gives every
/// error type, to make an error that carries a message. Nothing is claimed
/// about the error.
#[verifier::external_body]
pub(crate) fn failure(message: &str) -> serde_json::Error {
    serde::de::Error::custom(message)
}

} // verus!
