//! Peer identifiers: UUIDs held as their 128-bit value.
use vstd::prelude::*;

verus! {

/// The value of the UUID written in `s`, or `None` when `s` is not a UUID.
pub uninterp spec fn uuid_value(s: Seq<char>) -> Option<u128>;

/// Relies on `uuid::Uuid::parse_str` (read back with `Uuid::as_u128`): it accepts
/// exactly the UUID texts, and its result depends on the text alone.
#[verifier::external_body]
pub(crate) fn parse_uuid(s: &str) -> (r: Option<u128>)
    ensures
        r == uuid_value(s@),
{
    uuid::Uuid::parse_str(s).ok().map(|u| u.as_u128())
}

} // verus!
