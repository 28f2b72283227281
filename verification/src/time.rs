//! Spans of time, a monotonic clock and the wall clock.

use vstd::prelude::*;

verus! {

/// A span of time, or a reading of a [`Clock`], in nanoseconds.
#[derive(Debug, Clone, Copy, PartialEq, Eq, PartialOrd, Ord, Hash, Default, Structural)]
pub struct Duration {
    pub nanos: u128,
}

/// The end of a span that begins at `a` and lasts `b`, held at the largest
/// number that a span can have.
pub open spec fn sum(a: Duration, b: Duration) -> nat {
    if a.nanos + b.nanos > u128::MAX {
        u128::MAX as nat
    } else {
        (a.nanos + b.nanos) as nat
    }
}

/// How much longer `a` is than `b`, or nothing where it is not.
pub open spec fn difference(a: Duration, b: Duration) -> nat {
    if a.nanos > b.nanos {
        (a.nanos - b.nanos) as nat
    } else {
        0
    }
}

impl Duration {
    pub fn from_secs(secs: u64) -> (r: Duration)
        ensures
            r.nanos == secs * 1_000_000_000,
    {
        Duration { nanos: (secs as u128) * 1_000_000_000 }
    }

    pub fn from_millis(millis: u64) -> (r: Duration)
        ensures
            r.nanos == millis * 1_000_000,
    {
        Duration { nanos: (millis as u128) * 1_000_000 }
    }

    pub fn is_zero(&self) -> (r: bool)
        ensures
            r == (self.nanos == 0),
    {
        self.nanos == 0
    }

    /// Whole milliseconds.
    pub fn as_millis(&self) -> (r: u128)
        ensures
            r == self.nanos / 1_000_000,
    {
        self.nanos / 1_000_000
    }

    /// The sum of two spans.
    pub fn plus(&self, other: Duration) -> (r: Duration)
        ensures
            r.nanos == sum(*self, other),
    {
        if other.nanos > u128::MAX - self.nanos {
            Duration { nanos: u128::MAX }
        } else {
            Duration { nanos: self.nanos + other.nanos }
        }
    }

    /// The difference of two spans, zero where the other is longer.
    pub fn minus(&self, other: Duration) -> (r: Duration)
        ensures
            r.nanos == difference(*self, other),
    {
        if self.nanos > other.nanos {
            Duration { nanos: self.nanos - other.nanos }
        } else {
            Duration { nanos: 0 }
        }
    }
}

/// The longest span that the standard library can hold, in nanoseconds: 64 bits
/// of seconds and a part of one. No reading of a clock is longer, so that ends
/// of spans that are reckoned from a reading stay on the scale.
pub const LONGEST_NANOS: u128 = 18_446_744_073_709_551_615_999_999_999;

/// `std::time::Instant`, carried but not looked into.
#[verifier::external_type_specification]
#[verifier::external_body]
pub struct ExInstant(std::time::Instant);

/// `std::time::Instant::now` reads the monotonic clock of the machine; nothing
/// is claimed of the reading.
pub assume_specification[ std::time::Instant::now ]() -> std::time::Instant
;

/// `std::time::Instant::elapsed` in nanoseconds. Of the reading it is claimed
/// only that `std::time::Duration` holds it.
#[verifier::external_body]
fn nanos_since(start: &std::time::Instant) -> (r: u128)
    ensures
        r <= LONGEST_NANOS,
{
    start.elapsed().as_nanos()
}

/// A monotonic clock that counts from the moment it was started.
pub struct Clock {
    start: std::time::Instant,
}

impl Clock {
    pub fn start() -> Clock {
        Clock { start: std::time::Instant::now() }
    }

    /// The time since the clock was started.
    pub fn now(&self) -> (r: Duration)
        ensures
            r.nanos <= LONGEST_NANOS,
    {
        Duration { nanos: nanos_since(&self.start) }
    }
}

/// `std::time::SystemTime`, carried but not looked into.
#[verifier::external_type_specification]
#[verifier::external_body]
pub struct ExSystemTime(std::time::SystemTime);

/// `std::time::SystemTime::now` reads the wall clock of the machine; nothing
/// is claimed of the reading.
pub assume_specification[ std::time::SystemTime::now ]() -> std::time::SystemTime
;

/// `std::time::SystemTime::duration_since` the Unix epoch in nanoseconds, none
/// where the time lies before it. Of the reading it is claimed only that
/// `std::time::Duration` holds it.
#[verifier::external_body]
fn nanos_since_epoch(t: &std::time::SystemTime) -> (r: Option<u128>)
    ensures
        r matches Some(nanos) ==> nanos <= LONGEST_NANOS,
{
    t.duration_since(std::time::UNIX_EPOCH).ok().map(|d| d.as_nanos())
}

/// The time that a reading of the wall clock stands for: the nanoseconds since
/// the Unix epoch, zero where it lies before it.
pub fn wall_of(reading: Option<u128>) -> (r: Duration)
    ensures
        r.nanos == (match reading {
            Some(nanos) => nanos,
            None => 0,
        }),
{
    match reading {
        Some(nanos) => Duration { nanos },
        None => Duration { nanos: 0 },
    }
}

/// Reads the wall clock: the time since the Unix epoch, zero before it.
pub fn wall_now() -> (r: Duration)
    ensures
        r.nanos <= LONGEST_NANOS,
{
    let now = std::time::SystemTime::now();
    wall_of(nanos_since_epoch(&now))
}

/// Whole milliseconds of a reading of the wall clock, as a signed number.
pub open spec fn wall_millis(now: Duration) -> i64 {
    (now.nanos / 1_000_000) as i64
}

/// Whole milliseconds of a reading of the wall clock, as a signed number.
pub fn millis_of(now: Duration) -> (r: i64)
    ensures
        r == wall_millis(now),
{
    #[verifier::truncate]
    (now.as_millis() as i64)
}

/// Reads the wall clock, in milliseconds since the Unix epoch.
pub fn now_millis() -> i64 {
    millis_of(wall_now())
}

/// Spans are added and taken from each other in nanoseconds.
pub proof fn spans_are_added_in_nanoseconds(a: Duration, b: Duration)
    ensures
        a.nanos + b.nanos <= u128::MAX ==> sum(a, b) == a.nanos + b.nanos,
        a.nanos + b.nanos > u128::MAX ==> sum(a, b) == u128::MAX,
        a.nanos >= b.nanos ==> difference(a, b) == a.nanos - b.nanos,
        a.nanos <= b.nanos ==> difference(a, b) == 0,
{
}

} // verus!
