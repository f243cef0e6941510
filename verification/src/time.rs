//! Instants in UTC, read from RFC 3339 text or from the system clock.
use vstd::prelude::*;

verus! {

/// An instant in UTC: whole seconds since the Unix epoch and the nanoseconds
/// past that second.
#[derive(Clone, Copy, Debug, PartialEq, Eq, Structural)]
pub struct UtcTime {
    pub secs: i64,
    pub nanos: u32,
}

/// `a` is not later than `b`.
pub open spec fn utc_le(a: UtcTime, b: UtcTime) -> bool {
    a.secs < b.secs || (a.secs == b.secs && a.nanos <= b.nanos)
}

/// `a` is strictly earlier than `b`.
pub open spec fn utc_lt(a: UtcTime, b: UtcTime) -> bool {
    a.secs < b.secs || (a.secs == b.secs && a.nanos < b.nanos)
}

impl UtcTime {
    /// Whether `self` is not later than `other`.
    pub fn not_after(&self, other: &UtcTime) -> (r: bool)
        ensures
            r == utc_le(*self, *other),
    {
        self.secs < other.secs || (self.secs == other.secs && self.nanos <= other.nanos)
    }

    /// Whether `self` is strictly earlier than `other`.
    pub fn before(&self, other: &UtcTime) -> (r: bool)
        ensures
            r == utc_lt(*self, *other),
    {
        self.secs < other.secs || (self.secs == other.secs && self.nanos < other.nanos)
    }
}

/// What chrono's RFC 3339 parser makes of a text, converted to UTC and given as
/// the Unix timestamp with its sub-second nanoseconds.
pub uninterp spec fn rfc3339_utc(s: Seq<char>) -> Option<(i64, u32)>;

/// The instant that an RFC 3339 text denotes, if chrono accepts it.
pub open spec fn parsed_utc(s: Seq<char>) -> Option<UtcTime> {
    match rfc3339_utc(s) {
        Some(t) => Some(UtcTime { secs: t.0, nanos: t.1 }),
        None => None,
    }
}

/// Parses an RFC 3339 date-time with `chrono::DateTime::parse_from_rfc3339`
/// and converts it to UTC. The contract claims only that the result is chrono's
/// answer for this text (`rfc3339_utc`); what that answer is for a given text
/// is not stated.
#[verifier::external_body]
pub fn parse_utc(s: &str) -> (r: Option<UtcTime>)
    ensures
        rfc3339_utc(s@) == (match r {
            Some(t) => Some((t.secs, t.nanos)),
            None => None,
        }),
{
    match chrono::DateTime::parse_from_rfc3339(s) {
        Ok(dt) => {
            let utc = dt.to_utc();
            Some(UtcTime { secs: utc.timestamp(), nanos: utc.timestamp_subsec_nanos() })
        },
        Err(_) => None,
    }
}

/// Reads the system clock: `std::time::SystemTime::now`, converted with
/// chrono's `From<SystemTime> for DateTime<Utc>`, which also handles a clock
/// set before the Unix epoch. Nothing is claimed of the result: it depends on
/// the moment of the call.
#[verifier::external_body]
fn utc_now() -> UtcTime {
    let now = chrono::DateTime::<chrono::Utc>::from(std::time::SystemTime::now());
    UtcTime { secs: now.timestamp(), nanos: now.timestamp_subsec_nanos() }
}

/// A source of the current time.
pub trait TimeSource {
    fn now(&self) -> UtcTime;
}

/// The system clock.
pub struct SystemTimeSource;

impl TimeSource for SystemTimeSource {
    fn now(&self) -> UtcTime {
        utc_now()
    }
}

/// A clock that always shows the same instant.
pub struct MockTimeSource {
    fixed_time: UtcTime,
}

impl MockTimeSource {
    pub fn new(fixed_time: UtcTime) -> (r: Self)
        ensures
            r.fixed() == fixed_time,
    {
        MockTimeSource { fixed_time }
    }

    /// The instant this clock shows.
    pub closed spec fn fixed(&self) -> UtcTime {
        self.fixed_time
    }
}

impl TimeSource for MockTimeSource {
    fn now(&self) -> (r: UtcTime)
        ensures
            r == self.fixed(),
    {
        self.fixed_time
    }
}

} // verus!
