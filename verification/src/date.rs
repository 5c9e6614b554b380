//! The instant at which a cookie expires, and its text in the RFC 2822 form
//! that the `Expires` attribute carries.

use chrono::TimeZone;
use chrono::Utc;
use vstd::prelude::*;

verus! {

/// The first second of the year 0 in the proleptic Gregorian calendar, counted
/// from 1970-01-01 00:00:00 UTC.
pub const MIN_SECONDS: i64 = -62_167_219_200;

/// The last second of the year 9999, counted from 1970-01-01 00:00:00 UTC.
pub const MAX_SECONDS: i64 = 253_402_300_799;

/// Whether `secs` seconds and `nanos` nanoseconds after 1970-01-01 00:00:00
/// UTC name an instant that has an RFC 2822 text: the year lies between 0 and
/// 9999, and the nanoseconds stay below two seconds. A nanosecond count of a
/// second or more stands for a leap second.
pub open spec fn representable(secs: int, nanos: int) -> bool {
    &&& MIN_SECONDS <= secs <= MAX_SECONDS
    &&& 0 <= nanos < 2_000_000_000
}

/// The RFC 2822 text of the instant `secs` seconds and `nanos` nanoseconds
/// after 1970-01-01 00:00:00 UTC, as chrono writes it for a time in UTC, such
/// as `Thu, 01 Dec 2022 12:00:00 +0000`. What the text is on given numbers is
/// left to chrono.
pub uninterp spec fn rfc2822_text(secs: int, nanos: int) -> Seq<char>;

/// Taken from chrono without proof: `TimeZone::timestamp_opt` on `Utc` makes
/// the instant, `LocalResult::unwrap` takes it out, and `DateTime::to_rfc2822`
/// writes it. The contract claims that on representable arguments none of the
/// three panics, since there is a single such instant and its year is not
/// negative and has four digits at most, and that the text is `rfc2822_text`
/// of the two numbers, so that it depends on nothing else.
#[verifier::external_body]
fn rfc2822(secs: i64, nanos: u32) -> (text: String)
    requires
        representable(secs as int, nanos as int),
    ensures
        text@ == rfc2822_text(secs as int, nanos as int),
{
    Utc.timestamp_opt(secs, nanos).unwrap().to_rfc2822()
}

/// An instant in UTC that can be written as an HTTP date.
#[derive(Clone, Copy, Debug, PartialEq, Eq)]
pub struct HttpDate {
    secs: i64,
    nanos: u32,
}

impl HttpDate {
    #[verifier::type_invariant]
    spec fn is_representable(self) -> bool {
        representable(self.secs as int, self.nanos as int)
    }

    /// Whole seconds since 1970-01-01 00:00:00 UTC.
    pub closed spec fn secs(self) -> int {
        self.secs as int
    }

    /// Nanoseconds since the last whole second; a second or more during a
    /// leap second.
    pub closed spec fn nanos(self) -> int {
        self.nanos as int
    }

    /// The instant `secs` seconds and `nanos` nanoseconds after 1970-01-01
    /// 00:00:00 UTC, if it has an RFC 2822 text.
    pub fn new(secs: i64, nanos: u32) -> (date: Option<HttpDate>)
        ensures
            date is Some <==> representable(secs as int, nanos as int),
            date matches Some(d) ==> d.secs() == secs && d.nanos() == nanos,
    {
        if MIN_SECONDS <= secs && secs <= MAX_SECONDS && nanos < 2_000_000_000 {
            Some(HttpDate { secs, nanos })
        } else {
            None
        }
    }

    /// Whole seconds since 1970-01-01 00:00:00 UTC.
    pub fn seconds(&self) -> (secs: i64)
        ensures
            secs == self.secs(),
            MIN_SECONDS <= secs <= MAX_SECONDS,
    {
        proof {
            use_type_invariant(self);
        }
        self.secs
    }

    /// Nanoseconds since the last whole second.
    pub fn nanoseconds(&self) -> (nanos: u32)
        ensures
            nanos == self.nanos(),
            representable(self.secs(), self.nanos()),
    {
        proof {
            use_type_invariant(self);
        }
        self.nanos
    }

    /// The RFC 2822 text of the instant.
    pub fn to_rfc2822(&self) -> (text: String)
        ensures
            text@ == rfc2822_text(self.secs(), self.nanos()),
    {
        proof {
            use_type_invariant(self);
        }
        rfc2822(self.secs, self.nanos)
    }
}

} // verus!
