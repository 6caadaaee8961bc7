//! Fresh ids and timestamps for new rows.

use vstd::prelude::*;
use crate::text::{append_str, chars_of, string_from_chars};

verus! {

/// `chrono::Utc::now().to_rfc3339()`: the current time in RFC 3339 text.
/// It depends on the clock, so nothing is promised of it. `Utc::now` panics
/// when the system clock reads a time before 1970, which no argument can
/// rule out.
#[verifier::external_body]
pub(crate) fn now_iso() -> (out: String) {
    chrono::Utc::now().to_rfc3339()
}

/// `uuid::Uuid::new_v4()` written with `to_string`: a random version-4
/// UUID in its hyphenated form, which `uuid` writes with 36 characters
/// (`Hyphenated::LENGTH`). Which UUID comes out is left to chance.
/// `Uuid::new_v4` panics when the operating system's random source fails,
/// which no argument can rule out.
#[verifier::external_body]
fn new_uuid_text() -> (out: String)
    ensures
        out@.len() == 36,
{
    uuid::Uuid::new_v4().to_string()
}

/// An id made by `create_id` for the given prefix: the prefix, `_` and
/// 36 characters of a UUID.
pub open spec fn is_generated_id(prefix: Seq<char>, id: Seq<char>) -> bool {
    &&& id.len() == prefix.len() + 37
    &&& id.subrange(0, prefix.len() + 1int) == prefix + "_"@
}

/// A new id: the prefix, `_` and a random UUID.
pub fn create_id(prefix: &str) -> (out: String)
    ensures
        is_generated_id(prefix@, out@),
{
    let uuid = new_uuid_text();
    let mut chars = chars_of(prefix);
    append_str(&mut chars, "_");
    let ghost head = chars@;
    append_str(&mut chars, uuid.as_str());
    proof {
        reveal_strlit("_");
        assert(chars@.subrange(0, prefix@.len() + 1int) =~= head);
    }
    string_from_chars(&chars)
}

} // verus!
