//! Opaque identifiers.
//!
//! Every resource id travels as a string that must parse as a standard
//! 128-bit unique identifier; a malformed id is rejected before any store
//! access.  Parsing and formatting are delegated to the `uuid` crate.

use vstd::prelude::*;

use crate::errors::ApiError;

verus! {

/// What `uuid::Uuid::try_parse` accepts of a string: the 128-bit value it
/// denotes, or nothing.  The result depends on the characters alone.
pub uninterp spec fn uuid_parse(s: Seq<char>) -> Option<u128>;

/// The canonical hyphenated rendering of a 128-bit identifier.  It depends
/// on the value alone.
pub uninterp spec fn uuid_format(v: u128) -> Seq<char>;

/// Relies on `uuid::Uuid::try_parse` and `Uuid::as_u128`: parsing reads the
/// characters alone, and `as_u128` returns the parsed 128-bit value.
#[verifier::external_body]
fn uuid_of_str(s: &str) -> (r: Option<u128>)
    ensures
        r == uuid_parse(s@),
{
    match uuid::Uuid::try_parse(s) {
        Ok(u) => Some(u.as_u128()),
        Err(_) => None,
    }
}

/// Relies on `uuid::Uuid::from_u128` and the `Hyphenated` formatter: the
/// rendering is a 36-character function of the value alone, and `try_parse`
/// accepts it and recovers the value.
#[verifier::external_body]
pub fn format_id(v: u128) -> (r: String)
    ensures
        r@ == uuid_format(v),
        r@.len() == 36,
        uuid_parse(r@) == Some(v),
{
    uuid::Uuid::from_u128(v).hyphenated().to_string()
}

/// Parses a request id, rejecting a malformed one as `InvalidArgument`.
pub fn parse_id(id: &str) -> (r: Result<u128, ApiError>)
    ensures
        uuid_parse(id@) matches Some(v) ==> r == Ok::<u128, ApiError>(v),
        uuid_parse(id@) is None ==> (r matches Err(e) && e is InvalidArgument),
{
    match uuid_of_str(id) {
        Some(v) => Ok(v),
        None => Err(ApiError::invalid("'id'")),
    }
}

} // verus!
