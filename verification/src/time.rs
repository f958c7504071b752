//! Points in time, as seconds and nanoseconds since the Unix epoch.

use vstd::prelude::*;

verus! {

/// A point in time: whole seconds since 1970-01-01T00:00:00Z, and the
/// nanoseconds after that second.
#[derive(Clone, Copy, Debug, PartialEq, Eq, Structural)]
pub struct Timestamp {
    pub secs: i64,
    pub nanos: u32,
}

/// The number of seconds in a day.
pub const DAY_SECS: i64 = 86_400;

impl Timestamp {
    /// Whether `self` comes before `other`.
    pub open spec fn before(self, other: Timestamp) -> bool {
        self.secs < other.secs || (self.secs == other.secs && self.nanos < other.nanos)
    }

    /// The number of the day that the time falls on, counted from the epoch.
    pub open spec fn day(self) -> int {
        self.secs as int / 86_400
    }

    /// Whether `self` is at or after the time `days` days before `now`.
    pub open spec fn within_days(self, now: Timestamp, days: int) -> bool {
        let cutoff = now.secs - days * 86_400;
        self.secs > cutoff || (self.secs == cutoff && self.nanos >= now.nanos)
    }

    /// Whether `self` is after the time `days` days after `now`.
    pub open spec fn beyond_days(self, now: Timestamp, days: int) -> bool {
        let limit = now.secs + days * 86_400;
        self.secs > limit || (self.secs == limit && self.nanos > now.nanos)
    }

    /// Whether the time comes before another.
    pub fn is_before(&self, other: &Timestamp) -> (r: bool)
        ensures
            r == self.before(*other),
    {
        self.secs < other.secs || (self.secs == other.secs && self.nanos < other.nanos)
    }

    /// The number of the day that the time falls on, counted from the epoch.
    pub fn day_number(&self) -> (r: i64)
        ensures
            r == self.day(),
    {
        let q: i64 = self.secs / DAY_SECS;
        if self.secs % DAY_SECS < 0 {
            q - 1
        } else {
            q
        }
    }

    /// Whether the time is at or after the time `days` days before `now`.
    pub fn is_within_days(&self, now: &Timestamp, days: i64) -> (r: bool)
        ensures
            r == self.within_days(*now, days as int),
    {
        let cutoff: i128 = now.secs as i128 - days as i128 * 86_400;
        let secs: i128 = self.secs as i128;
        secs > cutoff || (secs == cutoff && self.nanos >= now.nanos)
    }

    /// Whether the time is after the time `days` days after `now`.
    pub fn is_beyond_days(&self, now: &Timestamp, days: i64) -> (r: bool)
        ensures
            r == self.beyond_days(*now, days as int),
    {
        let limit: i128 = now.secs as i128 + days as i128 * 86_400;
        let secs: i128 = self.secs as i128;
        secs > limit || (secs == limit && self.nanos > now.nanos)
    }
}

/// The RFC 3339 text of the time `secs` seconds and `nanos` nanoseconds after
/// the epoch, as `chrono::DateTime::to_rfc3339` writes it; `None` where
/// `chrono::DateTime::from_timestamp` has no such time.
pub uninterp spec fn rfc3339(secs: i64, nanos: u32) -> Option<Seq<char>>;

/// The RFC 3339 text of a time. Calls `chrono::DateTime::from_timestamp` and
/// `chrono::DateTime::to_rfc3339`, and claims that the text depends on the time
/// alone; the text itself is not stated.
#[verifier::external_body]
pub(crate) fn to_rfc3339(t: Timestamp) -> (r: Option<String>)
    ensures
        match r {
            Some(s) => rfc3339(t.secs, t.nanos) == Some(s@),
            None => rfc3339(t.secs, t.nanos) is None,
        },
{
    chrono::DateTime::from_timestamp(t.secs, t.nanos).map(|d| d.to_rfc3339())
}

/// The time that the system clock shows. Calls `chrono::Utc::now`, and claims that
/// the time is not before the epoch: a clock that stands before it makes the call
/// panic. Nothing else is claimed of the result, which is another at each call.
#[verifier::external_body]
pub(crate) fn current_time() -> (r: Timestamp)
    ensures
        r.secs >= 0,
{
    let now = chrono::Utc::now();
    Timestamp { secs: now.timestamp(), nanos: now.timestamp_subsec_nanos() }
}

// ---- Instants -------------------------------------------------------------------------

/// The nanoseconds from the epoch to the time.
pub open spec fn instant(t: Timestamp) -> int {
    t.secs * 1_000_000_000 + t.nanos
}

/// Times are compared as instants: which of two comes first, and whether a time is at
/// most so many days before, or more than so many days after, another.
pub proof fn lemma_times_are_instants(a: Timestamp, b: Timestamp, days: int)
    requires
        a.nanos < 1_000_000_000,
        b.nanos < 1_000_000_000,
    ensures
        a.before(b) <==> instant(a) < instant(b),
        a.within_days(b, days) <==> instant(a) >= instant(b) - days * 24 * 3600 * 1_000_000_000,
        a.beyond_days(b, days) <==> instant(a) > instant(b) + days * 24 * 3600 * 1_000_000_000,
{
}

/// The day of a time begins at or before it, and the next day after it.
pub proof fn lemma_day_holds_the_time(t: Timestamp)
    ensures
        t.day() * 24 * 3600 <= t.secs < (t.day() + 1) * 24 * 3600,
{
}

} // verus!
