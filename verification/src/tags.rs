//! Tags are stored as a JSON array of strings; `serde_json` reads and
//! writes that text.
use vstd::prelude::*;

use crate::text::opt_chars;

verus! {

/// What `serde_json::from_str::<Vec<String>>(text)` gives: the strings of a
/// JSON array of strings, or `None` when `text` is not one.
pub uninterp spec fn json_string_list(text: Seq<char>) -> Option<Seq<Seq<char>>>;

/// What `serde_json::to_string(items)` gives for a slice of strings, or
/// `None` when it reports an error.
pub uninterp spec fn json_encode_strings(items: Seq<Seq<char>>) -> Option<Seq<char>>;

/// The characters of each string.
pub open spec fn strs_v(s: Seq<String>) -> Seq<Seq<char>> {
    s.map_values(|x: String| x@)
}

/// `serde_json::from_str::<Vec<String>>`, with the error taken as `None`.
#[verifier::external_body]
fn decode_string_list(text: &str) -> (r: Option<Vec<String>>)
    ensures
        match r {
            Some(v) => json_string_list(text@) == Some(strs_v(v@)),
            None => json_string_list(text@) is None,
        },
{
    serde_json::from_str::<Vec<String>>(text).ok()
}

/// `serde_json::to_string` on a slice of strings, with the error taken as
/// `None`. Serializing strings into a byte vector cannot fail (the only
/// errors come from the writer or from map keys), the output is a non-empty
/// JSON array, and its string escapes are the ones `from_str` reads back, so
/// decoding the text gives the same strings.
#[verifier::external_body]
fn encode_string_list(items: &[String]) -> (r: Option<String>)
    ensures
        opt_chars(r) == json_encode_strings(strs_v(items@)),
        r is Some,
        r matches Some(t) ==> t@.len() > 0 && json_string_list(t@) == Some(strs_v(items@)),
{
    serde_json::to_string(items).ok()
}

/// The tags a stored tag column holds: none for a missing or empty column
/// or one that is not a JSON array of strings.
pub open spec fn parse_tags_spec(s: Option<Seq<char>>) -> Seq<Seq<char>> {
    match s {
        None => seq![],
        Some(t) => if t.len() == 0 {
            seq![]
        } else {
            match json_string_list(t) {
                Some(v) => v,
                None => seq![],
            }
        },
    }
}

/// The tag column text written for `tags` ("[]" should encoding fail).
pub open spec fn tags_json_spec(tags: Seq<Seq<char>>) -> Seq<char> {
    match json_encode_strings(tags) {
        Some(t) => t,
        None => "[]"@,
    }
}

/// Reads a stored tag column.
pub fn parse_tags(s: Option<&str>) -> (r: Vec<String>)
    ensures
        strs_v(r@) == parse_tags_spec(
            match s {
                Some(t) => Some(t@),
                None => None,
            },
        ),
{
    match s {
        None => Vec::new(),
        Some(t) => {
            if t.is_empty() {
                let r: Vec<String> = Vec::new();
                assert(strs_v(r@) =~= seq![]);
                r
            } else {
                match decode_string_list(t) {
                    Some(v) => v,
                    None => {
                        let r: Vec<String> = Vec::new();
                        assert(strs_v(r@) =~= seq![]);
                        r
                    },
                }
            }
        },
    }
}

/// Reads an optional stored tag column.
pub fn parse_tags_opt(s: &Option<String>) -> (r: Vec<String>)
    ensures
        strs_v(r@) == parse_tags_spec(opt_chars(*s)),
{
    match s {
        Some(t) => parse_tags(Some(t.as_str())),
        None => {
            let r: Vec<String> = Vec::new();
            assert(strs_v(r@) =~= seq![]);
            r
        },
    }
}

/// The tag column text for `tags`. Reading that text back gives the same
/// tags.
pub fn tags_to_json(tags: &[String]) -> (r: String)
    ensures
        r@ == tags_json_spec(strs_v(tags@)),
        parse_tags_spec(Some(r@)) == strs_v(tags@),
{
    match encode_string_list(tags) {
        Some(t) => t,
        None => String::from_str("[]"),
    }
}

} // verus!
