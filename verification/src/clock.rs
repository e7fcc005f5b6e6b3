//! Points in time.

use vstd::prelude::*;

verus! {

/// The first second of the years that can be told.
pub const MIN_SECONDS: i64 = -8_334_601_228_800;

/// The last second of the years that can be told.
pub const MAX_SECONDS: i64 = 8_210_266_876_799;

/// A point in time: seconds since the start of 1970 (UTC), and nanoseconds within the second.
#[derive(Debug, Clone, Copy, PartialEq, Eq, Structural)]
pub struct Timestamp {
    pub seconds: i64,
    pub nanos: u32,
}

impl Timestamp {
    /// Whether this is in the range that can be told, and within its second; the last second of
    /// a minute may be a leap second, which lasts twice as long.
    pub open spec fn valid(self) -> bool {
        MIN_SECONDS <= self.seconds <= MAX_SECONDS && (self.nanos < 1_000_000_000 || (self.nanos
            < 2_000_000_000 && self.seconds % 60 == 59))
    }

    /// Whether this is in one of the years 0 to 9999.
    pub open spec fn four_digit_year(self) -> bool {
        -62_167_219_200 <= self.seconds <= 253_402_300_799
    }

    /// The nanoseconds since the start of 1970.
    pub open spec fn instant(self) -> int {
        self.seconds * 1_000_000_000 + self.nanos
    }

    /// Whether `self` is later than `other`.
    pub open spec fn later(self, other: Timestamp) -> bool {
        self.seconds > other.seconds || (self.seconds == other.seconds && self.nanos > other.nanos)
    }

    /// Whether `self` is later than `other`.
    pub fn is_after(self, other: Timestamp) -> (r: bool)
        ensures
            r == self.later(other),
    {
        self.seconds > other.seconds || (self.seconds == other.seconds && self.nanos > other.nanos)
    }
}

/// `chrono::Utc::now` tells the time. It is no earlier than the start of 1970 (the call itself
/// insists on that) and otherwise whatever the machine's clock says.
#[verifier::external_body]
pub(crate) fn now() -> (r: Timestamp)
    ensures
        r.valid(),
        r.seconds >= 0,
        r.nanos < 1_000_000_000,
{
    let t = chrono::Utc::now();
    Timestamp { seconds: t.timestamp(), nanos: t.timestamp_subsec_nanos() }
}

/// `chrono::DateTime::from_timestamp` takes a number of seconds for a point in time, where it is
/// within the years that can be told.
#[verifier::external_body]
pub(crate) fn from_unix(seconds: i64) -> (r: Option<Timestamp>)
    ensures
        r == (if MIN_SECONDS <= seconds <= MAX_SECONDS {
            Some(Timestamp { seconds, nanos: 0 })
        } else {
            None
        }),
{
    chrono::DateTime::from_timestamp(seconds, 0).map(
        |t| Timestamp { seconds: t.timestamp(), nanos: t.timestamp_subsec_nanos() },
    )
}

/// What `chrono::DateTime::to_rfc3339` writes for a point in time, in UTC.
pub uninterp spec fn rfc3339(seconds: i64, nanos: u32) -> Seq<char>;

/// `chrono::DateTime::to_rfc3339`: the text is a function of the point in time, named
/// [`rfc3339`]. Of the years that have four digits it is what
/// `chrono::DateTime::parse_from_rfc3339` reads as the same point in time.
#[verifier::external_body]
pub(crate) fn to_rfc3339(t: Timestamp) -> (r: String)
    requires
        t.valid(),
    ensures
        r@ == rfc3339(t.seconds, t.nanos),
        t.four_digit_year() ==> rfc3339_value(r@) == Some((t.seconds, t.nanos)),
{
    chrono::DateTime::from_timestamp(t.seconds, t.nanos).unwrap().to_rfc3339()
}

/// What `chrono::DateTime::to_rfc3339_opts` writes for a point in time, in UTC, with nine digits
/// of a second and a `Z`.
pub uninterp spec fn rfc3339_nanos(seconds: i64, nanos: u32) -> Seq<char>;

/// `chrono::DateTime::to_rfc3339_opts` with nanoseconds and `Z`: the text is a function of the
/// point in time, named [`rfc3339_nanos`].
#[verifier::external_body]
pub(crate) fn to_rfc3339_nanos(t: Timestamp) -> (r: String)
    requires
        t.valid(),
    ensures
        r@ == rfc3339_nanos(t.seconds, t.nanos),
{
    chrono::DateTime::from_timestamp(t.seconds, t.nanos).unwrap().to_rfc3339_opts(
        chrono::SecondsFormat::Nanos,
        true,
    )
}

/// What `chrono`'s format `%Y%m%d_%H%M%S` writes for a point in time, in UTC.
pub uninterp spec fn compact(seconds: i64, nanos: u32) -> Seq<char>;

/// `chrono::DateTime::format` with `%Y%m%d_%H%M%S`: the text is a function of the point in time,
/// named [`compact`].
#[verifier::external_body]
pub(crate) fn to_compact(t: Timestamp) -> (r: String)
    requires
        t.valid(),
    ensures
        r@ == compact(t.seconds, t.nanos),
{
    chrono::DateTime::from_timestamp(t.seconds, t.nanos).unwrap().format("%Y%m%d_%H%M%S").to_string()
}

/// The point in time that `chrono::DateTime::parse_from_rfc3339` reads out of a text: its seconds
/// and nanoseconds, if the text is one.
pub uninterp spec fn rfc3339_value(text: Seq<char>) -> Option<(i64, u32)>;

/// The point in time that a text tells.
pub open spec fn told(text: Seq<char>) -> Option<Timestamp> {
    match rfc3339_value(text) {
        Some((seconds, nanos)) => Some(Timestamp { seconds, nanos }),
        None => None,
    }
}

/// `chrono::DateTime::parse_from_rfc3339`: whether the text is a point in time, and which, is a
/// function of the text, named [`rfc3339_value`].
#[verifier::external_body]
pub(crate) fn parse_rfc3339(text: &str) -> (r: Option<Timestamp>)
    ensures
        match r {
            Some(t) => t.valid() && rfc3339_value(text@) == Some((t.seconds, t.nanos)),
            None => rfc3339_value(text@) is None,
        },
{
    chrono::DateTime::parse_from_rfc3339(text).ok().map(
        |t| Timestamp { seconds: t.timestamp(), nanos: t.timestamp_subsec_nanos() },
    )
}

/// The seconds of a time that a text tells; 0 for none.
pub open spec fn seconds_of(text: Option<String>) -> i64 {
    match text {
        Some(t) => match told(t@) {
            Some(t) => t.seconds,
            None => 0,
        },
        None => 0,
    }
}

/// The seconds of a time that a text tells; 0 for none.
pub fn unix_seconds(text: &Option<String>) -> (r: i64)
    ensures
        r == seconds_of(*text),
{
    match text {
        Some(t) => match parse_rfc3339(t.as_str()) {
            Some(t) => t.seconds,
            None => 0,
        },
        None => 0,
    }
}

/// The Unix time of a text is that of the moment it tells, and 0 where it tells none.
pub proof fn law_a_time_is_read_or_zero(text: String)
    ensures
        rfc3339_value(text@) matches Some((seconds, nanos)) ==> {
            &&& seconds_of(Some(text)) == seconds
            &&& told(text@) == Some(Timestamp { seconds, nanos })
        },
        rfc3339_value(text@) is None ==> seconds_of(Some(text)) == 0 && told(text@) is None,
        seconds_of(None) == 0,
{
}

/// Moments are in one line: of two different ones one is later, never both, and what is later
/// than a later one is later. A moment in a later second is later.
pub proof fn law_moments_are_in_line(a: Timestamp, b: Timestamp, c: Timestamp)
    ensures
        a.later(b) || b.later(a) || a == b,
        !(a.later(b) && b.later(a)),
        !a.later(a),
        a.later(b) && b.later(c) ==> a.later(c),
        a.seconds > b.seconds ==> a.later(b),
        a.seconds == b.seconds ==> (a.later(b) <==> a.nanos > b.nanos),
{
}

} // verus!
