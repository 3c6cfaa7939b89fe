//! Instants in UTC, and how they are written.

use crate::text;
use vstd::prelude::*;

verus! {

/// The first second that can be written as a date: that of `chrono`'s first
/// day.
pub const MIN_SECONDS: i64 = -8334601228800;

/// The last second that can be written as a date: that of `chrono`'s last
/// day.
pub const MAX_SECONDS: i64 = 8210266876799;

/// The last second of the year 9999.
pub const LAST_FOUR_DIGIT_YEAR: i64 = 253402300799;

/// An instant: seconds since the Unix epoch, and nanoseconds into the
/// second.
#[derive(Debug, Clone, Copy, PartialEq, Eq, Structural)]
pub struct UtcTime {
    pub seconds: i64,
    pub nanos: u32,
}

impl UtcTime {
    /// The instant can be written as a date.
    pub open spec fn valid(self) -> bool {
        MIN_SECONDS <= self.seconds <= MAX_SECONDS && self.nanos < 1_000_000_000
    }

    /// Whether the instant can be written as a date.
    pub fn is_valid(&self) -> (r: bool)
        ensures
            r == self.valid(),
    {
        MIN_SECONDS <= self.seconds && self.seconds <= MAX_SECONDS && self.nanos < 1_000_000_000
    }

    /// The instant `seconds` later.
    pub open spec fn later(self, seconds: int) -> UtcTime {
        UtcTime { seconds: (self.seconds + seconds) as i64, nanos: self.nanos }
    }

    /// The instant `seconds` later.
    pub fn plus(&self, seconds: u64) -> (r: UtcTime)
        requires
            self.seconds + seconds <= MAX_SECONDS,
        ensures
            r == self.later(seconds as int),
            self.valid() ==> r.valid(),
    {
        UtcTime { seconds: (self.seconds as i128 + seconds as i128) as i64, nanos: self.nanos }
    }

    /// The Unix time that requests are judged by: whole seconds, none
    /// before the epoch.
    pub open spec fn unix(self) -> u64 {
        if self.seconds < 0 {
            0
        } else {
            self.seconds as u64
        }
    }

    /// The Unix time that requests are judged by.
    pub fn unix_seconds(&self) -> (r: u64)
        ensures
            r == self.unix(),
    {
        if self.seconds < 0 {
            0
        } else {
            self.seconds as u64
        }
    }
}

/// An instant in RFC 3339, as `chrono` writes it.
pub uninterp spec fn rfc3339_text(seconds: i64, nanos: u32) -> Seq<char>;

/// `chrono`'s `DateTime::from_timestamp(..).to_rfc3339()` in UTC.
#[verifier::external_body]
pub(crate) fn rfc3339(t: UtcTime) -> (r: String)
    requires
        t.valid(),
    ensures
        r@ == rfc3339_text(t.seconds, t.nanos),
{
    chrono::DateTime::<chrono::Utc>::from_timestamp(t.seconds, t.nanos).expect(
        "in range",
    ).to_rfc3339()
}

/// An instant in the basic ISO 8601 form `YYYYMMDDTHHMMSSZ`, as `chrono`
/// writes it.
pub uninterp spec fn compact_text(seconds: i64) -> Seq<char>;

/// A character of a compact instant.
pub open spec fn compact_char(c: char) -> bool {
    text::is_digit(c) || c == 'T' || c == 'Z' || c == '+' || c == '-'
}

/// `chrono`'s `DateTime::from_timestamp(..).format("%Y%m%dT%H%M%SZ")` in
/// UTC. It writes digits, `T` and `Z`, with a sign before a year outside
/// 0 to 9999; from 1970 to 9999 that is sixteen characters.
#[verifier::external_body]
pub(crate) fn compact(t: UtcTime) -> (r: String)
    requires
        t.valid(),
    ensures
        r@ == compact_text(t.seconds),
        forall|i: int| 0 <= i < r@.len() ==> compact_char(#[trigger] r@[i]),
        0 <= t.seconds <= LAST_FOUR_DIGIT_YEAR ==> r@.len() == 16,
{
    chrono::DateTime::<chrono::Utc>::from_timestamp(t.seconds, 0).expect("in range").format(
        "%Y%m%dT%H%M%SZ",
    ).to_string()
}

/// An instant in the ISO 8601 form `YYYY-MM-DDTHH:MM:SSZ`, as `chrono`
/// writes it.
pub uninterp spec fn iso_text(seconds: i64) -> Seq<char>;

/// `chrono`'s `DateTime::from_timestamp(..).format("%Y-%m-%dT%H:%M:%SZ")`
/// in UTC.
#[verifier::external_body]
pub(crate) fn iso(t: UtcTime) -> (r: String)
    requires
        t.valid(),
    ensures
        r@ == iso_text(t.seconds),
{
    chrono::DateTime::<chrono::Utc>::from_timestamp(t.seconds, 0).expect("in range").format(
        "%Y-%m-%dT%H:%M:%SZ",
    ).to_string()
}

} // verus!
