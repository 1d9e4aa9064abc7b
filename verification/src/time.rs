//! Points in time, as seconds and nanoseconds since the Unix epoch (UTC).
use vstd::prelude::*;

verus! {

/// Nanoseconds in one second.
pub const NANOS_PER_SEC: i128 = 1_000_000_000;

/// A UTC instant: whole seconds since the Unix epoch plus the fraction of the
/// current second in nanoseconds. During a leap second the fraction reaches
/// past 10^9, as chrono represents it.
#[derive(Debug, Clone, Copy, PartialEq, Eq, Structural)]
pub struct Timestamp {
    pub secs: i64,
    pub nanos: u32,
}

impl Timestamp {
    /// Whether `self` is not after `other`. Instants are ordered by their
    /// seconds, then by their nanoseconds, as chrono orders them: a leap
    /// second, whose nanoseconds reach past 10^9, stays within its second.
    pub open spec fn precedes_eq(self, other: Timestamp) -> bool {
        self.secs < other.secs || (self.secs == other.secs && self.nanos <= other.nanos)
    }

    /// Whether `self` is strictly before `other`.
    pub open spec fn precedes(self, other: Timestamp) -> bool {
        self.secs < other.secs || (self.secs == other.secs && self.nanos < other.nanos)
    }

    /// An instant from whole seconds since the epoch.
    pub fn from_secs(secs: i64) -> (r: Timestamp)
        ensures
            r.secs == secs,
            r.nanos == 0,
    {
        Timestamp { secs, nanos: 0 }
    }

    /// The instant `seconds` seconds later (earlier when negative), saturating
    /// at the ends of the representable range.
    pub fn plus_secs(&self, seconds: i64) -> (r: Timestamp)
        ensures
            r.nanos == self.nanos,
            r.secs == (if self.secs + seconds > i64::MAX {
                i64::MAX as int
            } else if self.secs + seconds < i64::MIN {
                i64::MIN as int
            } else {
                self.secs + seconds
            }),
    {
        let s = (self.secs as i128) + (seconds as i128);
        let secs: i64 = if s > i64::MAX as i128 {
            i64::MAX
        } else if s < i64::MIN as i128 {
            i64::MIN
        } else {
            s as i64
        };
        Timestamp { secs, nanos: self.nanos }
    }
}

/// Seconds in one day.
pub const SECS_PER_DAY: i64 = 86400;

/// The second of the (UTC) day at which an instant falls.
pub open spec fn day_second(secs: i64) -> int {
    (secs as int) % (SECS_PER_DAY as int)
}

/// Nanoseconds from `earlier` to `later`, by chrono's rule for the
/// difference of two instants: the difference of the seconds, one more when
/// the earlier instant is in a leap second of an earlier time of day, one
/// less when the later instant is in a leap second of an earlier time of
/// day, plus the difference of the nanoseconds.
pub open spec fn nanos_since(later: Timestamp, earlier: Timestamp) -> int {
    let ta = day_second(later.secs);
    let tb = day_second(earlier.secs);
    let adjust: int = if ta > tb && earlier.nanos >= NANOS_PER_SEC {
        1
    } else if ta < tb && later.nanos >= NANOS_PER_SEC {
        -1
    } else {
        0
    };
    (later.secs - earlier.secs + adjust) * NANOS_PER_SEC + later.nanos - earlier.nanos
}

/// The second of the day at which an instant falls.
fn second_of_day(secs: i64) -> (r: i64)
    ensures
        r == day_second(secs),
        0 <= r < SECS_PER_DAY,
{
    match secs.checked_rem_euclid(SECS_PER_DAY) {
        Some(r) => r,
        None => 0,
    }
}

/// Nanoseconds from `earlier` to `later`.
pub fn nanos_between(earlier: &Timestamp, later: &Timestamp) -> (r: i128)
    ensures
        r == nanos_since(*later, *earlier),
{
    let ta = second_of_day(later.secs);
    let tb = second_of_day(earlier.secs);
    let mut secs: i128 = (later.secs as i128) - (earlier.secs as i128);
    if ta > tb && (earlier.nanos as i128) >= NANOS_PER_SEC {
        secs = secs + 1;
    } else if ta < tb && (later.nanos as i128) >= NANOS_PER_SEC {
        secs = secs - 1;
    }
    secs * NANOS_PER_SEC + (later.nanos as i128) - (earlier.nanos as i128)
}

/// Whether `a` is not after `b`.
pub fn not_after(a: &Timestamp, b: &Timestamp) -> (r: bool)
    ensures
        r == a.precedes_eq(*b),
{
    a.secs < b.secs || (a.secs == b.secs && a.nanos <= b.nanos)
}

/// Whether `a` is strictly before `b`.
pub fn is_before(a: &Timestamp, b: &Timestamp) -> (r: bool)
    ensures
        r == a.precedes(*b),
{
    a.secs < b.secs || (a.secs == b.secs && a.nanos < b.nanos)
}

/// The later of two instants (the first one when they are equal).
pub fn later_of(a: Timestamp, b: Timestamp) -> (r: Timestamp)
    ensures
        r == (if a.precedes(b) {
            b
        } else {
            a
        }),
{
    if is_before(&a, &b) {
        b
    } else {
        a
    }
}

/// The current time: `std::time::SystemTime::now`, converted to UTC with
/// chrono's `From<SystemTime> for DateTime<Utc>`, which also reads clocks
/// set before the epoch.
///
/// Nothing is stated of the result: it depends on the clock. That
/// conversion panics only for a clock more than about 262,000 years away
/// from the epoch, outside what chrono can represent.
#[verifier::external_body]
pub fn now() -> (r: Timestamp) {
    let t = chrono::DateTime::<chrono::Utc>::from(std::time::SystemTime::now());
    Timestamp { secs: t.timestamp(), nanos: t.timestamp_subsec_nanos() }
}

/// The instant that `chrono::DateTime::parse_from_rfc3339` reads from a string,
/// converted to UTC; `None` where that parser rejects the string.
pub uninterp spec fn spec_parse_rfc3339(raw: Seq<char>) -> Option<Timestamp>;

/// Reads an RFC 3339 timestamp with `chrono::DateTime::parse_from_rfc3339`.
///
/// The contract claims only that the result is a function of the text: the
/// result of the chrono parser, converted to UTC seconds and nanoseconds.
#[verifier::external_body]
pub fn parse_rfc3339(raw: &str) -> (r: Option<Timestamp>)
    ensures
        r == spec_parse_rfc3339(raw@),
{
    match chrono::DateTime::parse_from_rfc3339(raw) {
        Ok(t) => Some(Timestamp { secs: t.timestamp(), nanos: t.timestamp_subsec_nanos() }),
        Err(_) => None,
    }
}

} // verus!
