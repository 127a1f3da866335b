//! Points in time, spans of time, and clocks.

use vstd::prelude::*;

verus! {

/// The Unix time of the first second that `chrono` has a date for: the start
/// of the year -262143.
pub const MIN_UNIX_SECS: i64 = -8_334_601_228_800;

/// The Unix time of the last second that `chrono` has a date for: the end of
/// the year 262142.
pub const MAX_UNIX_SECS: i64 = 8_210_266_876_799;

/// Whether `chrono` has a date and time of day for the Unix time of `secs`
/// seconds and `nanos` nanoseconds: the seconds lie within its range of
/// dates, and the nanoseconds are less than a second, or less than two
/// seconds in the last second of a minute, which stands for a leap second.
pub open spec fn unix_time_exists(secs: i64, nanos: u32) -> bool {
    &&& MIN_UNIX_SECS <= secs <= MAX_UNIX_SECS
    &&& nanos < 1_000_000_000 || (nanos < 2_000_000_000 && secs as int % 60 == 59)
}

/// Asks `DateTime::from_timestamp` of the `chrono` crate whether it has a
/// date and time of day for a Unix time. It has one for the seconds from the
/// start of the year -262143 to the end of the year 262142, with nanoseconds
/// below a second, or below two seconds in the last second of a minute.
#[verifier::external_body]
fn chrono_knows(secs: i64, nanos: u32) -> (known: bool)
    ensures
        known == unix_time_exists(secs, nanos),
{
    chrono::DateTime::from_timestamp(secs, nanos).is_some()
}

/// Reads the system clock with `Utc::now` of the `chrono` crate, as Unix
/// seconds and nanoseconds. The crate documents that `from_timestamp` takes
/// back what `timestamp` and `timestamp_subsec_nanos` give.
#[verifier::external_body]
fn chrono_now() -> (now: (i64, u32))
    ensures
        unix_time_exists(now.0, now.1),
{
    let now = chrono::Utc::now();
    (now.timestamp(), now.timestamp_subsec_nanos())
}

/// A point in time: seconds since the start of 1970 in UTC, and nanoseconds
/// on top of them.
#[derive(Debug, Clone, Copy, PartialEq, Eq, Structural)]
pub struct Timestamp {
    secs: i64,
    nanos: u32,
}

impl Timestamp {
    /// Seconds since the start of 1970 in UTC.
    pub closed spec fn secs(self) -> i64 {
        self.secs
    }

    /// Nanoseconds on top of the seconds.
    pub closed spec fn nanos(self) -> u32 {
        self.nanos
    }

    /// The point in time of the given seconds and nanoseconds.
    pub closed spec fn at(secs: i64, nanos: u32) -> Timestamp {
        Timestamp { secs, nanos }
    }

    /// A point in time is that of its seconds and nanoseconds.
    pub proof fn lemma_same(self)
        ensures
            Timestamp::at(self.secs(), self.nanos()) == self,
    {
    }

    /// Whether the point in time is one that has a date and a time of day.
    pub open spec fn wf(self) -> bool {
        unix_time_exists(self.secs(), self.nanos())
    }

    #[verifier::type_invariant]
    spec fn valid(self) -> bool {
        unix_time_exists(self.secs, self.nanos)
    }

    /// The point in time as nanoseconds since the start of 1970.
    pub open spec fn total_nanos(self) -> int {
        self.secs() * 1_000_000_000 + self.nanos()
    }

    /// The point in time of Unix seconds and nanoseconds, if they form one.
    pub fn new(secs: i64, nanos: u32) -> (r: Option<Self>)
        ensures
            match r {
                Some(t) => unix_time_exists(secs, nanos) && t.secs() == secs && t.nanos() == nanos,
                None => !unix_time_exists(secs, nanos),
            },
    {
        if chrono_knows(secs, nanos) {
            Some(Timestamp { secs, nanos })
        } else {
            None
        }
    }

    /// Seconds since the start of 1970 in UTC.
    pub fn timestamp(&self) -> (secs: i64)
        ensures
            secs == self.secs(),
    {
        self.secs
    }

    /// Nanoseconds on top of the seconds.
    pub fn timestamp_subsec_nanos(&self) -> (nanos: u32)
        ensures
            nanos == self.nanos(),
    {
        self.nanos
    }

    /// Hands the point in time back; every value of the type is one that
    /// has a date and a time of day.
    pub fn checked(self) -> (t: Self)
        ensures
            t == self,
            t.wf(),
    {
        proof {
            use_type_invariant(&self);
        }
        self
    }

    /// Whether this point in time is not before `other`.
    pub fn is_at_or_after(&self, other: &Timestamp) -> (r: bool)
        ensures
            r == (self.total_nanos() >= other.total_nanos()),
    {
        let a: i128 = self.secs as i128 * 1_000_000_000 + self.nanos as i128;
        let b: i128 = other.secs as i128 * 1_000_000_000 + other.nanos as i128;
        a >= b
    }

    /// The later of two points in time.
    pub fn latest(self, other: Timestamp) -> (r: Timestamp)
        ensures
            r == later_of(self, other),
    {
        if other.is_at_or_after(&self) {
            other
        } else {
            self
        }
    }

    /// Whether this point in time lies at most `max_age` before `now`.
    pub fn is_within(&self, max_age: &TimeDelta, now: &Timestamp) -> (r: bool)
        ensures
            r == is_fresh(*self, *max_age, *now),
    {
        let this: i128 = self.secs as i128 * 1_000_000_000 + self.nanos as i128;
        let current: i128 = now.secs as i128 * 1_000_000_000 + now.nanos as i128;
        let age: i128 = max_age.secs as i128 * 1_000_000_000 + max_age.nanos as i128;
        this >= current - age
    }
}

/// The later of two points in time; the second where they are the same.
pub open spec fn later_of(a: Timestamp, b: Timestamp) -> Timestamp {
    if b.total_nanos() >= a.total_nanos() {
        b
    } else {
        a
    }
}

/// Whether `t` is no earlier than `now` less `max_age`.
pub open spec fn is_fresh(t: Timestamp, max_age: TimeDelta, now: Timestamp) -> bool {
    t.total_nanos() >= now.total_nanos() - max_age.total_nanos()
}

/// A span of time: whole seconds, which may be negative, and nanoseconds on
/// top of them.
#[derive(Debug, Clone, Copy, PartialEq, Eq, Structural)]
pub struct TimeDelta {
    secs: i64,
    nanos: u32,
}

impl TimeDelta {
    /// The whole seconds of the span.
    pub closed spec fn secs(self) -> i64 {
        self.secs
    }

    /// The nanoseconds on top of the seconds.
    pub closed spec fn nanos(self) -> u32 {
        self.nanos
    }

    /// The span in nanoseconds.
    pub open spec fn total_nanos(self) -> int {
        self.secs() * 1_000_000_000 + self.nanos()
    }

    /// A span of whole seconds and nanoseconds.
    pub fn new(secs: i64, nanos: u32) -> (d: Self)
        ensures
            d.secs() == secs,
            d.nanos() == nanos,
    {
        TimeDelta { secs, nanos }
    }

    /// The whole seconds of the span.
    pub fn whole_seconds(&self) -> (secs: i64)
        ensures
            secs == self.secs(),
    {
        self.secs
    }

    /// The nanoseconds on top of the whole seconds.
    pub fn subsec_nanos(&self) -> (nanos: u32)
        ensures
            nanos == self.nanos(),
    {
        self.nanos
    }

    /// A span of whole seconds.
    pub fn seconds(secs: i64) -> (d: Self)
        ensures
            d.secs() == secs,
            d.nanos() == 0,
    {
        TimeDelta { secs, nanos: 0 }
    }

    /// A span of whole days of 86400 seconds.
    pub fn days(days: i64) -> (d: Self)
        requires
            -106_751_991_167 <= days <= 106_751_991_167,
        ensures
            d.secs() == days * 86_400,
            d.nanos() == 0,
    {
        TimeDelta { secs: days * 86_400, nanos: 0 }
    }
}

/// A source of the current time.
pub trait Clock {
    /// Whether the clock may tell `now` as the current time. A clock that
    /// says nothing of itself may tell any time.
    open spec fn tells(&self, now: Timestamp) -> bool {
        true
    }

    /// The current time.
    fn now(&self) -> (now: Timestamp)
        ensures
            self.tells(now),
    ;
}

/// The clock of the system.
#[derive(Debug, Clone, Copy)]
pub struct SystemClock;

impl Clock for SystemClock {
    /// Reads the clock of the system, which gives a point in time that has
    /// a date and a time of day.
    fn now(&self) -> (now: Timestamp)
        ensures
            now.wf(),
    {
        let (secs, nanos) = chrono_now();
        Timestamp { secs, nanos }
    }
}

impl Default for SystemClock {
    fn default() -> Self {
        SystemClock
    }
}

} // verus!
