//! Points on the civil timeline.
//!
//! A [`Timestamp`] counts seconds from 1970-01-01T00:00:00 as read off the
//! wall clock, with no offset applied: whatever zone the digits were written
//! in, they are taken as they stand.

use vstd::prelude::*;

verus! {

/// Seconds in one calendar day.
pub const SECONDS_PER_DAY: i64 = 86_400;

/// The first day whose midnight can be held in a `Timestamp`.
pub const FIRST_DAY: i64 = -106_751_991_167_300;

/// The last day whose following midnight can be held in a `Timestamp`.
pub const LAST_DAY: i64 = 106_751_991_167_299;

/// A wall-clock reading: whole seconds since the civil epoch and the
/// nanoseconds past that second.
///
/// Readings are ordered by `secs` and then by `nanos`. A calendar library
/// that reports a leap second as a nanosecond count of a full second or more
/// on the second before it is carried unchanged, and such a reading orders
/// after every ordinary reading of that second.
#[derive(Clone, Copy, Debug, PartialEq, Eq, Structural)]
pub struct Timestamp {
    pub secs: i64,
    pub nanos: u32,
}

/// Whether every second of day `day`, from its midnight through the midnight
/// that follows, fits the seconds field of a `Timestamp`.
pub open spec fn day_representable(day: int) -> bool {
    FIRST_DAY <= day <= LAST_DAY
}

impl Timestamp {
    /// The lexicographic order on (`secs`, `nanos`): `self` is no later than `other`.
    pub open spec fn le(self, other: Timestamp) -> bool {
        self.secs < other.secs || (self.secs == other.secs && self.nanos <= other.nanos)
    }

    /// `self` is strictly earlier than `other`.
    pub open spec fn lt(self, other: Timestamp) -> bool {
        self.secs < other.secs || (self.secs == other.secs && self.nanos < other.nanos)
    }

    /// Index of the calendar day that holds this reading: day 0 begins at the epoch.
    pub open spec fn day(self) -> int {
        self.secs as int / 86_400
    }

    /// Whole seconds elapsed since the midnight that opens this reading's day.
    pub open spec fn second_of_day(self) -> int {
        self.secs as int % 86_400
    }

    /// The reading at the whole second `secs`.
    pub open spec fn at_second(secs: int) -> Timestamp {
        Timestamp { secs: secs as i64, nanos: 0 }
    }

    /// The reading `nanos` nanoseconds past the whole second `secs`.
    pub fn new(secs: i64, nanos: u32) -> (t: Timestamp)
        ensures
            t == (Timestamp { secs, nanos }),
    {
        Timestamp { secs, nanos }
    }

    /// The reading at the whole second `secs`.
    pub fn from_seconds(secs: i64) -> (t: Timestamp)
        ensures
            t == Timestamp::at_second(secs as int),
    {
        Timestamp { secs, nanos: 0 }
    }

    /// Whether `self` is no later than `other`.
    pub fn is_le(&self, other: &Timestamp) -> (r: bool)
        ensures
            r == self.le(*other),
    {
        self.secs < other.secs || (self.secs == other.secs && self.nanos <= other.nanos)
    }

    /// Whether `self` is strictly earlier than `other`.
    pub fn is_lt(&self, other: &Timestamp) -> (r: bool)
        ensures
            r == self.lt(*other),
    {
        self.secs < other.secs || (self.secs == other.secs && self.nanos < other.nanos)
    }

    /// The index of the day that holds this reading.
    pub fn day_index(&self) -> (d: i64)
        ensures
            d == self.day(),
    {
        match self.secs.checked_div_euclid(SECONDS_PER_DAY) {
            Some(d) => d,
            None => 0,
        }
    }

    /// Whole seconds since the last midnight, from 0 to 86399.
    pub fn seconds_since_midnight(&self) -> (s: u32)
        ensures
            s == self.second_of_day(),
            s < 86_400,
    {
        match self.secs.checked_rem_euclid(SECONDS_PER_DAY) {
            Some(s) => s as u32,
            None => 0,
        }
    }
}

/// The reading `offset` seconds after the midnight that opens day `day`.
pub fn second_in_day(day: i64, offset: u32) -> (t: Timestamp)
    requires
        day_representable(day as int),
        offset <= 86_400,
    ensures
        t == Timestamp::at_second(day * 86_400 + offset),
{
    Timestamp { secs: day * SECONDS_PER_DAY + offset as i64, nanos: 0 }
}

/// Tests whether day `day` lies in the range that `day_representable` describes.
pub fn is_day_representable(day: i64) -> (r: bool)
    ensures
        r == day_representable(day as int),
{
    FIRST_DAY <= day && day <= LAST_DAY
}

/// The representable days are those whose seconds, from the day's midnight
/// through the midnight that follows, fit the seconds field of a `Timestamp`.
pub proof fn lemma_representable_days(day: int)
    ensures
        day_representable(day) <==> i64::MIN <= day * 86_400 && day * 86_400 + 86_400
            <= i64::MAX,
{
}

} // verus!
