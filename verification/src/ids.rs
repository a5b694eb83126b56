//! Identifier minting and parsing, through the `uuid` crate.
//!
//! Connection and group identifiers are opaque 128-bit values drawn at
//! random.  The registry mints group identifiers here; the directed-message
//! path parses a client-supplied identifier text back into its value.

use vstd::prelude::*;

verus! {

/// The identifier value that a given text denotes, or `None` when the text
/// is not an identifier.  Defined by `uuid::Uuid::parse_str`, as a function
/// of the text alone.
pub uninterp spec fn parsed_id_of(s: Seq<char>) -> Option<u128>;

/// Relies on uuid::Uuid::new_v4 for a freshly drawn random identifier.
/// Nothing is promised of the value.
#[verifier::external_body]
pub(crate) fn fresh_id() -> u128 {
    uuid::Uuid::new_v4().as_u128()
}

/// Relies on uuid::Uuid::parse_str: the result depends on the input text
/// alone, and the hyphenated text of an identifier parses back to that
/// identifier.
#[verifier::external_body]
pub(crate) fn parse_id(s: &str) -> (r: Option<u128>)
    ensures
        r == parsed_id_of(s@),
        forall|n: u128| s@ == #[trigger] crate::text::id_chars(n) ==> r == Some(n),
{
    match uuid::Uuid::parse_str(s) {
        Ok(u) => Some(u.as_u128()),
        Err(_) => None,
    }
}

} // verus!
