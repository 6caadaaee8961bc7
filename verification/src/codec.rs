//! The tags column of the card table: a card's tags stored as JSON text.

use vstd::prelude::*;
use crate::text::{join, string_seqs};

verus! {

/// The lower-case hexadecimal digit of `d` (below 16).
pub open spec fn hex_digit(d: u32) -> char {
    "0123456789abcdef"@[d as int]
}

/// How one character is written inside a JSON string: `"` and `\` behind a
/// backslash, the short escapes `\b \t \n \f \r`, `\u00` and two hex digits
/// for the other control characters below `U+0020`, every other character
/// as it is.
pub open spec fn json_char(c: char) -> Seq<char> {
    let u = c as u32;
    if c == '"' {
        seq!['\\', '"']
    } else if c == '\\' {
        seq!['\\', '\\']
    } else if u == 0x08 {
        seq!['\\', 'b']
    } else if u == 0x09 {
        seq!['\\', 't']
    } else if u == 0x0a {
        seq!['\\', 'n']
    } else if u == 0x0c {
        seq!['\\', 'f']
    } else if u == 0x0d {
        seq!['\\', 'r']
    } else if u < 0x20 {
        seq!['\\', 'u', '0', '0', hex_digit(u / 16), hex_digit(u % 16)]
    } else {
        seq![c]
    }
}

/// The characters of a text, each written as in a JSON string.
pub open spec fn json_chars(s: Seq<char>) -> Seq<char>
    decreases s.len(),
{
    if s.len() == 0 {
        Seq::empty()
    } else {
        json_chars(s.drop_last()) + json_char(s.last())
    }
}

/// A text as a JSON string: its escaped characters between double quotes.
pub open spec fn json_string(s: Seq<char>) -> Seq<char> {
    seq!['"'] + json_chars(s) + seq!['"']
}

/// The compact JSON text of a list of tags: the JSON strings of the tags,
/// separated by commas, between square brackets.
pub open spec fn tags_json_text(tags: Seq<Seq<char>>) -> Seq<char> {
    seq!['['] + join(tags.map_values(|t: Seq<char>| json_string(t)), seq![',']) + seq![']']
}

/// What `serde_json::from_str::<Vec<String>>` reads from a text: the tags,
/// or nothing when the text is not a JSON array of strings.
pub uninterp spec fn tags_read_from(text: Seq<char>) -> Option<Seq<Seq<char>>>;

/// `serde_json::to_string` on a list of tags.
///
/// Claimed: the result is the compact JSON text of the tags as
/// `tags_json_text` spells it out (brackets, commas, quoted strings with
/// serde_json's escapes), and reading that text gives the tags back (the
/// reader decodes those escapes). The serializer of `Vec<String>` writes into memory and
/// has no failing case, so the empty text that stands in for an error is
/// never returned.
#[verifier::external_body]
fn write_tags(tags: &Vec<String>) -> (out: String)
    ensures
        out@ == tags_json_text(string_seqs(tags@)),
        tags_read_from(out@) == Some(string_seqs(tags@)),
{
    serde_json::to_string(tags).unwrap_or_default()
}

/// `serde_json::from_str::<Vec<String>>`, with `None` for its error.
///
/// Claimed: the result is the named reading of the text.
#[verifier::external_body]
fn read_tags(text: &str) -> (out: Option<Vec<String>>)
    ensures
        match out {
            Some(v) => tags_read_from(text@) == Some(string_seqs(v@)),
            None => tags_read_from(text@) is None,
        },
{
    serde_json::from_str::<Vec<String>>(text).ok()
}

/// The text stored in the tags column for a list of tags.
pub fn tags_column(tags: &Vec<String>) -> (out: String)
    ensures
        out@ == tags_json_text(string_seqs(tags@)),
        tags_read_from(out@) == Some(string_seqs(tags@)),
{
    write_tags(tags)
}

/// The tags read from the tags column; a text that is not a JSON array of
/// strings gives no tags.
pub fn tags_from_column(text: &str) -> (out: Vec<String>)
    ensures
        string_seqs(out@) == match tags_read_from(text@) {
            Some(t) => t,
            None => Seq::empty(),
        },
{
    match read_tags(text) {
        Some(v) => v,
        None => {
            let empty: Vec<String> = Vec::new();
            assert(string_seqs(empty@) =~= Seq::<Seq<char>>::empty());
            empty
        },
    }
}

} // verus!
