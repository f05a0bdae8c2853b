//! Fresh opaque identifiers and the textual identity format of the ledger's
//! account principals.

use vstd::prelude::*;
use vstd::utf8::is_ascii_chars;

verus! {

/// Relies on uuid::Uuid::new_v4 and its Display form: a fresh random
/// identifier in the canonical hyphenated rendering, which is always 36 ASCII
/// characters. The value is random; nothing relates two calls.
#[verifier::external_body]
pub(crate) fn fresh_id() -> (id: String)
    ensures
        id@.len() == 36,
        is_ascii_chars(id@),
{
    uuid::Uuid::new_v4().to_string()
}

/// The byte blob that a well-formed textual principal denotes, or nothing
/// when the text is malformed.
pub uninterp spec fn principal_bytes_of(text: Seq<char>) -> Option<Seq<u8>>;

/// Relies on candid::Principal::from_text and Principal::as_slice: parsing is
/// a function of the text alone, and a principal holds at most 29 bytes.
#[verifier::external_body]
pub(crate) fn parse_principal(text: &str) -> (r: Option<Vec<u8>>)
    ensures
        match r {
            Some(b) => principal_bytes_of(text@) == Some(b@) && b@.len() <= 29,
            None => principal_bytes_of(text@) is None,
        },
{
    match candid::Principal::from_text(text) {
        Ok(p) => Some(p.as_slice().to_vec()),
        Err(_) => None,
    }
}

} // verus!
