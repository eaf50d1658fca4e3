//! Time-ordered identifiers.
use vstd::prelude::*;

verus! {

/// Calls `uuid::Uuid::now_v7` and returns the identifier as a `u128`
/// (`Uuid::as_u128`). The value depends on the clock and on a random source,
/// so nothing is stated of it; the `uuid` crate documents that the values one
/// process generates are ordered by their creation.
#[verifier::external_body]
pub(crate) fn now_v7_as_u128() -> u128 {
    uuid::Uuid::now_v7().as_u128()
}

/// The value of the UUID that `uuid::Uuid::parse_str` reads from the text
/// `s`, as `Uuid::as_u128` gives it, or `None` where it refuses the text. The
/// parser accepts several layouts (hyphenated, simple, braced, URN) and
/// depends on the text alone.
pub uninterp spec fn uuid_text_value(s: Seq<char>) -> Option<u128>;

/// Calls `uuid::Uuid::parse_str` on `s`; the result is `uuid_text_value` of
/// its text.
#[verifier::external_body]
pub(crate) fn parse_uuid(s: &str) -> (r: Option<u128>)
    ensures
        r == uuid_text_value(s@),
{
    match uuid::Uuid::parse_str(s) {
        Ok(u) => Some(u.as_u128()),
        Err(_) => None,
    }
}

} // verus!
