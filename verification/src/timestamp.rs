//! Calendar timestamps.
//!
//! Every `time_sent`, `time_recieved` and `time_established` value is a
//! [`Timestamp`]: a calendar date and time of day with millisecond
//! precision and a fixed utc offset, held as plain integers.  Ordering is
//! lexicographic on the date and time-of-day fields, which coincides with
//! the ordering of the fixed-width text form the codec writes.

use vstd::prelude::*;

verus! {

/// A calendar timestamp with a fixed utc offset.
#[derive(Debug, Clone, Copy, PartialEq, Eq, Structural)]
pub struct Timestamp {
    pub year: u16,
    pub month: u8,
    pub day: u8,
    pub hour: u8,
    pub minute: u8,
    pub second: u8,
    pub millisecond: u16,
    /// Whole hours of the utc offset; carries the offset's sign.
    pub offset_hour: i8,
    /// Minutes past the offset hour, without sign.
    pub offset_minute: u8,
}

impl Timestamp {
    /// Every field within its calendar range.
    pub open spec fn wf(self) -> bool {
        &&& self.year <= 9999
        &&& 1 <= self.month <= 12
        &&& 1 <= self.day <= 31
        &&& self.hour <= 23
        &&& self.minute <= 59
        &&& self.second <= 59
        &&& self.millisecond <= 999
        &&& -23 <= self.offset_hour <= 23
        &&& self.offset_minute <= 59
    }

    /// The timestamp collapsed to one integer, strictly monotone in the
    /// lexicographic order of the date and time-of-day fields.
    pub open spec fn spec_key(self) -> int {
        (((((self.year * 13 + self.month) * 32 + self.day) * 24 + self.hour) * 60 + self.minute)
            * 60 + self.second) * 1000 + self.millisecond
    }

    /// `self` at or before `other`; the utc offset does not participate.
    pub open spec fn spec_le(self, other: Self) -> bool {
        self.spec_key() <= other.spec_key()
    }

    /// The key as a machine integer.
    pub fn key(&self) -> (r: u64)
        requires
            self.wf(),
        ensures
            r == self.spec_key(),
    {
        (((((self.year as u64 * 13 + self.month as u64) * 32 + self.day as u64) * 24
            + self.hour as u64) * 60 + self.minute as u64) * 60 + self.second as u64) * 1000
            + self.millisecond as u64
    }

    /// Decides [`Timestamp::spec_le`].
    pub fn le(&self, other: &Timestamp) -> (r: bool)
        requires
            self.wf(),
            other.wf(),
        ensures
            r == self.spec_le(*other),
    {
        self.key() <= other.key()
    }

    /// The least well-formed timestamp.
    pub fn min() -> (r: Timestamp)
        ensures
            r.wf(),
            forall|t: Timestamp| t.wf() ==> r.spec_le(t),
    {
        Timestamp {
            year: 0,
            month: 1,
            day: 1,
            hour: 0,
            minute: 0,
            second: 0,
            millisecond: 0,
            offset_hour: 0,
            offset_minute: 0,
        }
    }

    /// The greatest well-formed timestamp.
    pub fn max() -> (r: Timestamp)
        ensures
            r.wf(),
            forall|t: Timestamp| t.wf() ==> t.spec_le(r),
    {
        Timestamp {
            year: 9999,
            month: 12,
            day: 31,
            hour: 23,
            minute: 59,
            second: 59,
            millisecond: 999,
            offset_hour: 0,
            offset_minute: 0,
        }
    }
}

/// Reads the process clock: the local time when the local utc offset is
/// known, otherwise utc.  Relies on `time::OffsetDateTime::now_local` /
/// `now_utc` and the component accessors, whose results it hands back as
/// plain integers; the documented component ranges are the only promise.
#[verifier::external_body]
fn clock_now() -> (r: (i32, u8, u8, u8, u8, u8, u16, i8, i8))
    ensures
        1 <= r.1 <= 12,
        1 <= r.2 <= 31,
        r.3 <= 23,
        r.4 <= 59,
        r.5 <= 59,
        r.6 <= 999,
        -25 <= r.7 <= 25,
        -59 <= r.8 <= 59,
{
    let t = match time::OffsetDateTime::now_local() {
        Ok(t) => t,
        Err(_) => time::OffsetDateTime::now_utc(),
    };
    (
        t.year(),
        u8::from(t.month()),
        t.day(),
        t.hour(),
        t.minute(),
        t.second(),
        t.millisecond(),
        t.offset().whole_hours(),
        t.offset().minutes_past_hour(),
    )
}

/// The timestamp a clock reading yields: every component clamped into
/// its calendar range, the offset minute taken by magnitude (the sign
/// of an offset rides on its hour).
pub open spec fn spec_clock_timestamp(
    year: i32,
    month: u8,
    day: u8,
    hour: u8,
    minute: u8,
    second: u8,
    millisecond: u16,
    off_h: i8,
    off_m: i8,
) -> Timestamp {
    Timestamp {
        year: if year < 0 {
            0
        } else if year > 9999 {
            9999
        } else {
            year as u16
        },
        month: if month < 1 {
            1
        } else if month > 12 {
            12
        } else {
            month
        },
        day: if day < 1 {
            1
        } else if day > 31 {
            31
        } else {
            day
        },
        hour: if hour > 23 {
            23
        } else {
            hour
        },
        minute: if minute > 59 {
            59
        } else {
            minute
        },
        second: if second > 59 {
            59
        } else {
            second
        },
        millisecond: if millisecond > 999 {
            999
        } else {
            millisecond
        },
        offset_hour: if off_h < -23 {
            (-23) as i8
        } else if off_h > 23 {
            (23) as i8
        } else {
            off_h
        },
        offset_minute: if off_m < 0 {
            if 0 - off_m > 59 {
                59
            } else {
                (0 - off_m) as u8
            }
        } else {
            if off_m > 59 {
                59
            } else {
                off_m as u8
            }
        },
    }
}

/// Clamps raw clock components into a well-formed [`Timestamp`],
/// exactly as [`spec_clock_timestamp`] says.
pub fn clamp_clock(
    year: i32,
    month: u8,
    day: u8,
    hour: u8,
    minute: u8,
    second: u8,
    millisecond: u16,
    off_h: i8,
    off_m: i8,
) -> (r: Timestamp)
    ensures
        r == spec_clock_timestamp(
            year,
            month,
            day,
            hour,
            minute,
            second,
            millisecond,
            off_h,
            off_m,
        ),
        r.wf(),
{
    Timestamp {
        year: if year < 0 {
            0
        } else if year > 9999 {
            9999
        } else {
            year as u16
        },
        month: if month < 1 {
            1
        } else if month > 12 {
            12
        } else {
            month
        },
        day: if day < 1 {
            1
        } else if day > 31 {
            31
        } else {
            day
        },
        hour: if hour > 23 {
            23
        } else {
            hour
        },
        minute: if minute > 59 {
            59
        } else {
            minute
        },
        second: if second > 59 {
            59
        } else {
            second
        },
        millisecond: if millisecond > 999 {
            999
        } else {
            millisecond
        },
        offset_hour: if off_h < -23 {
            -23
        } else if off_h > 23 {
            23
        } else {
            off_h
        },
        offset_minute: {
            let mag: i32 = if off_m < 0 {
                0 - off_m as i32
            } else {
                off_m as i32
            };
            if mag > 59 {
                59
            } else {
                mag as u8
            }
        },
    }
}

/// The current moment as a [`Timestamp`]: the trusted clock reading,
/// clamped by [`clamp_clock`].  Nothing more than well-formedness can
/// be promised of a clock.
pub fn get_now() -> (r: Timestamp)
    ensures
        r.wf(),
{
    let (year, month, day, hour, minute, second, millisecond, off_h, off_m) = clock_now();
    clamp_clock(year, month, day, hour, minute, second, millisecond, off_h, off_m)
}

} // verus!
