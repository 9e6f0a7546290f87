//! Wall-clock time and random identifiers.

use vstd::prelude::*;

verus! {

/// Text in the shape chrono gives a UTC time in RFC 3339: at least 25
/// characters (a year of four digits or more, `-MM-DDTHH:MM:SS`, an
/// optional fraction of a second) ending in the offset `+00:00`.
pub open spec fn utc_timestamp(s: Seq<char>) -> bool {
    s.len() >= 25 && s.subrange(s.len() - 6, s.len() as int) == "+00:00"@
}

/// The current UTC time as RFC 3339 text, from `chrono::Utc::now().to_rfc3339()`.
/// chrono writes the year (four digits, or a sign and at least four
/// digits out of range), `-MM-DDTHH:MM:SS`, a fraction only when the
/// nanoseconds are not zero, and the offset with a colon and no `Z`,
/// which for UTC is `+00:00`. Which time it reads depends on the clock
/// and is not stated; nor are the digits.
#[verifier::external_body]
pub(crate) fn now_rfc3339() -> (r: String)
    ensures
        utc_timestamp(r@),
{
    chrono::Utc::now().to_rfc3339()
}

/// A fresh random identifier, from `uuid::Uuid::new_v4().to_string()`.
/// The hyphenated form of a UUID is 36 characters long; nothing else is
/// claimed, as the value is random.
#[verifier::external_body]
pub(crate) fn new_uuid() -> (r: String)
    ensures
        r@.len() == 36,
{
    uuid::Uuid::new_v4().to_string()
}

} // verus!
