//! The JSON form of a list of paths: an array of strings.

use vstd::prelude::*;
use crate::paths::path_texts;

verus! {

/// What `serde_json` reads from a text as an array of strings: `None` when
/// the text is not a JSON array of strings.
pub uninterp spec fn json_string_array(text: Seq<char>) -> Option<Seq<Seq<char>>>;

/// The pretty-printed JSON text that `serde_json` writes for an array of
/// strings.
pub uninterp spec fn pretty_json_string_array(items: Seq<Seq<char>>) -> Seq<char>;

/// `serde_json::from_str::<Vec<String>>`, its error dropped.
/// Claimed: the result is the name `json_string_array` of the text.
#[verifier::external_body]
pub(crate) fn parse_string_array(text: &str) -> (r: Option<Vec<String>>)
    ensures
        match r {
            Some(v) => json_string_array(text@) == Some(path_texts(v@)),
            None => json_string_array(text@) is None,
        },
{
    serde_json::from_str::<Vec<String>>(text).ok()
}

/// `serde_json::to_string_pretty` on a `Vec<String>`, its error turned into
/// its message. Claimed: it succeeds (serde_json's only errors for a sequence
/// of strings are I/O errors of its writer, and writing into a `Vec<u8>`
/// never fails); the text is the name `pretty_json_string_array` of the
/// strings, and reading it back as an array of strings gives the same
/// strings (serde_json escapes and unescapes every character of a string).
#[verifier::external_body]
pub(crate) fn write_string_array_pretty(items: &Vec<String>) -> (r: Result<String, String>)
    ensures
        r is Ok,
        r matches Ok(s) ==> s@ == pretty_json_string_array(path_texts(items@)),
        r matches Ok(s) ==> json_string_array(s@) == Some(path_texts(items@)),
{
    serde_json::to_string_pretty(items).map_err(|e| e.to_string())
}

} // verus!
