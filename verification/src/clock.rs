//! Points in time.
//!
//! Decisions are stated over readings of the clock that are handed in as values;
//! methods that read the clock themselves pass the reading on to one that takes it.
use std::time::{Duration, Instant};
use vstd::prelude::*;

verus! {

/// `std::time::Instant`, a reading of the operating system's monotonic clock.
#[verifier::external_type_specification]
#[verifier::external_body]
pub struct ExInstant(std::time::Instant);

/// `Instant::now`: the present reading. Nothing is claimed of it.
pub assume_specification[ std::time::Instant::now ]() -> Instant
;

/// `Instant::elapsed`: the time since `start`. Nothing is claimed of it.
pub assume_specification[ std::time::Instant::elapsed ](start: &Instant) -> Duration
;

/// `Duration::as_nanos`: the length in nanoseconds. A `Duration` holds a count of
/// seconds of 64 bits and less than one second more.
pub assume_specification[ std::time::Duration::as_nanos ](d: &Duration) -> (n: u128)
    ensures
        n < READING_LIMIT,
;

pub const NANOS_PER_SECOND: u128 = 1_000_000_000;

pub const NANOS_PER_MILLISECOND: u128 = 1_000_000;

/// What a clock shows is below this: its readings are counts of seconds of 64 bits.
pub const READING_LIMIT: u128 = 18_446_744_073_709_551_616_000_000_000;

/// A point in time, counted in nanoseconds from the start of a clock.
#[derive(Clone, Copy, Debug, PartialEq, Eq, Structural)]
pub struct Moment {
    pub nanos: u128,
}

impl Moment {
    /// A clock can show this.
    pub open spec fn is_reading(self) -> bool {
        self.nanos < READING_LIMIT
    }

    /// A wait that starts at a reading of a clock is never cut short.
    pub proof fn law_waits_are_not_cut_short(self, secs: u64, millis: u64)
        requires
            self.is_reading(),
        ensures
            self.later_secs(secs as int).nanos == self.nanos + secs * NANOS_PER_SECOND,
            self.later_millis(millis as int).nanos == self.nanos + millis * NANOS_PER_MILLISECOND,
    {
    }

    /// The nanoseconds from `earlier` to `self`, none if it is the later one.
    pub open spec fn nanos_since(self, earlier: Moment) -> int {
        if self.nanos >= earlier.nanos {
            self.nanos - earlier.nanos
        } else {
            0
        }
    }

    /// The point that lies `nanos` after `self`, or the last one.
    pub open spec fn later(self, nanos: int) -> Moment {
        if self.nanos + nanos <= u128::MAX {
            Moment { nanos: (self.nanos + nanos) as u128 }
        } else {
            Moment { nanos: u128::MAX }
        }
    }

    pub open spec fn later_secs(self, secs: int) -> Moment {
        self.later(secs * NANOS_PER_SECOND)
    }

    pub open spec fn later_millis(self, millis: int) -> Moment {
        self.later(millis * NANOS_PER_MILLISECOND)
    }

    /// At least `secs` seconds lie between `earlier` and `self`.
    pub open spec fn past_secs(self, earlier: Moment, secs: int) -> bool {
        self.nanos_since(earlier) >= secs * NANOS_PER_SECOND
    }

    /// The nanoseconds since `earlier`.
    pub fn since(&self, earlier: &Moment) -> (n: u128)
        ensures
            n == self.nanos_since(*earlier),
    {
        if self.nanos >= earlier.nanos {
            self.nanos - earlier.nanos
        } else {
            0
        }
    }

    /// The whole seconds since `earlier`.
    pub fn secs_since(&self, earlier: &Moment) -> (n: u128)
        ensures
            n == self.nanos_since(*earlier) / NANOS_PER_SECOND as int,
    {
        self.since(earlier) / NANOS_PER_SECOND
    }

    /// The whole milliseconds since `earlier`.
    pub fn millis_since(&self, earlier: &Moment) -> (n: u128)
        ensures
            n == self.nanos_since(*earlier) / NANOS_PER_MILLISECOND as int,
    {
        self.since(earlier) / NANOS_PER_MILLISECOND
    }

    /// Whether `secs` seconds have gone by since `earlier`.
    pub fn has_passed(&self, earlier: &Moment, secs: u64) -> (r: bool)
        ensures
            r == self.past_secs(*earlier, secs as int),
    {
        self.since(earlier) >= secs as u128 * NANOS_PER_SECOND
    }

    fn plus_nanos(&self, nanos: u128) -> (m: Moment)
        ensures
            m == self.later(nanos as int),
    {
        if self.nanos <= u128::MAX - nanos {
            Moment { nanos: self.nanos + nanos }
        } else {
            Moment { nanos: u128::MAX }
        }
    }

    /// The point `secs` seconds later.
    pub fn plus_secs(&self, secs: u64) -> (m: Moment)
        ensures
            m == self.later_secs(secs as int),
    {
        self.plus_nanos(secs as u128 * NANOS_PER_SECOND)
    }

    /// The point `millis` milliseconds later.
    pub fn plus_millis(&self, millis: u64) -> (m: Moment)
        ensures
            m == self.later_millis(millis as int),
    {
        self.plus_nanos(millis as u128 * NANOS_PER_MILLISECOND)
    }

    /// Whether `self` is not before `other`.
    pub fn reached(&self, other: &Moment) -> (r: bool)
        ensures
            r == (self.nanos >= other.nanos),
    {
        self.nanos >= other.nanos
    }
}

/// A clock, started at some instant. Copies of it tell the same time.
#[derive(Clone, Copy, Debug)]
pub struct Clock {
    origin: Instant,
}

impl Clock {
    /// A clock that starts now.
    pub fn start() -> Clock {
        Clock { origin: std::time::Instant::now() }
    }

    /// The present reading.
    pub fn now(&self) -> (m: Moment)
        ensures
            m.is_reading(),
    {
        let d = self.origin.elapsed();
        Moment { nanos: d.as_nanos() }
    }
}

/// Reads `SystemTime::elapsed` of the Unix epoch in milliseconds; nothing when
/// the system's clock stands before 1970. Nothing is claimed of the reading.
#[verifier::external_body]
fn since_epoch() -> (r: Option<u128>) {
    std::time::SystemTime::UNIX_EPOCH.elapsed().ok().map(|d| d.as_millis())
}

/// A reading of the milliseconds since the Unix epoch in 64 bits; 0 where the system's
/// clock stands before 1970.
pub fn millis_of(reading: Option<u128>) -> (ms: u64)
    ensures
        ms == match reading {
            Some(n) => n % 0x1_0000_0000_0000_0000,
            None => 0,
        },
{
    match reading {
        Some(n) => (n % 0x1_0000_0000_0000_0000) as u64,
        None => 0,
    }
}

/// The milliseconds since the Unix epoch.
pub fn epoch_millis() -> u64 {
    millis_of(since_epoch())
}

/// A point in time of the calendar: the milliseconds since the Unix epoch, and how it
/// is written in the format of RFC 3339.
#[derive(Debug)]
pub struct UtcTime {
    pub millis: i64,
    pub iso: String,
}

/// How the time so many seconds and nanoseconds after the Unix epoch is written in the
/// format of RFC 3339, if the calendar reaches that far.
pub uninterp spec fn rfc3339_of(secs: int, nanos: int) -> Option<Seq<char>>;

/// `DateTime::<Utc>::from_timestamp`, with `timestamp_millis` and `to_rfc3339` of its
/// result: the milliseconds are the whole seconds' and those in the nanoseconds.
#[verifier::external_body]
fn calendar_time(secs: i64, nanos: u32) -> (r: Option<(i64, String)>)
    ensures
        match r {
            Some(t) => t.0 == secs * 1000 + nanos as int / 1_000_000 && rfc3339_of(
                secs as int,
                nanos as int,
            ) == Some(t.1@),
            None => rfc3339_of(secs as int, nanos as int) is None,
        },
{
    chrono::DateTime::<chrono::Utc>::from_timestamp(secs, nanos).map(
        |t| (t.timestamp_millis(), t.to_rfc3339()),
    )
}

/// `Utc::now`, with `timestamp` and `timestamp_subsec_nanos` of its result: the seconds
/// and nanoseconds since the Unix epoch. It makes its result with `from_timestamp`, so the
/// calendar reaches that far. Nothing else is claimed of the reading.
#[verifier::external_body]
fn calendar_now() -> (r: (i64, u32))
    ensures
        rfc3339_of(r.0 as int, r.1 as int) is Some,
{
    let now = chrono::Utc::now();
    (now.timestamp(), now.timestamp_subsec_nanos())
}

impl UtcTime {
    /// Both fields tell the time so many seconds and nanoseconds after the Unix epoch.
    pub open spec fn tells(self, secs: i64, nanos: u32) -> bool {
        &&& self.millis == secs * 1000 + nanos as int / 1_000_000
        &&& rfc3339_of(secs as int, nanos as int) == Some(self.iso@)
    }
}

impl UtcTime {
    /// The time so many seconds and nanoseconds after the Unix epoch, if the calendar
    /// reaches that far.
    pub fn at(secs: i64, nanos: u32) -> (r: Option<UtcTime>)
        ensures
            match r {
                Some(t) => t.tells(secs, nanos),
                None => rfc3339_of(secs as int, nanos as int) is None,
            },
    {
        match calendar_time(secs, nanos) {
            Some((millis, iso)) => Some(UtcTime { millis, iso }),
            None => None,
        }
    }

    /// The present time.
    pub fn now() -> (t: UtcTime)
        ensures
            exists|secs: i64, nanos: u32| t.tells(secs, nanos),
    {
        let (secs, nanos) = calendar_now();
        let t = UtcTime::at(secs, nanos).unwrap();
        assert(t.tells(secs, nanos));
        t
    }
}

} // verus!
