use vstd::prelude::*;
use vstd::string::*;
use crate::textfmt::{spec_dec_padded, u64_dec_padded};

verus! {

/// A UTC timestamp with millisecond precision, held as plain calendar
/// fields exactly as the device's packed date/time bit fields deliver them.
/// Field bounds follow the widths of those bit fields, so a record whose
/// date bits are out of calendar range still decodes to a value of this type.
#[derive(Debug, Clone, Copy, PartialEq, Eq, Structural, Hash)]
pub struct UtcTime {
    pub year: u16,
    pub month: u8,
    pub day: u8,
    pub hour: u8,
    pub minute: u8,
    pub second: u8,
    pub millis: u16,
}

/// The bounds the packed bit fields force: 8-bit year offset from 2000,
/// 4-bit month, 5-bit day, 5-bit hour, 6-bit minute, a second count below
/// 66 (16-bit millisecond-of-minute divided by 1000) and millis below 1000.
pub open spec fn wf_time(t: UtcTime) -> bool {
    &&& 2000 <= t.year <= 2255
    &&& t.month <= 15
    &&& t.day <= 31
    &&& t.hour <= 31
    &&& t.minute <= 63
    &&& t.second <= 65
    &&& t.millis <= 999
}

impl UtcTime {
    pub fn from_ymd_hms_milli(year: u16, month: u8, day: u8, hour: u8, minute: u8, second: u8, millis: u16) -> (t: UtcTime)
        requires
            wf_time(UtcTime { year, month, day, hour, minute, second, millis }),
        ensures
            t == (UtcTime { year, month, day, hour, minute, second, millis }),
    {
        UtcTime { year, month, day, hour, minute, second, millis }
    }
}

/// Leap years in `[2000, year)`.
pub open spec fn spec_leaps_before(year: int) -> int {
    let dy = year - 2000;
    (dy + 3) / 4 - (dy + 99) / 100 + (dy + 399) / 400
}

/// Days in the months before `month` of a common year.
pub open spec fn spec_days_before_month(month: int) -> int {
    if month <= 1 {
        0
    } else if month == 2 {
        31
    } else if month == 3 {
        59
    } else if month == 4 {
        90
    } else if month == 5 {
        120
    } else if month == 6 {
        151
    } else if month == 7 {
        181
    } else if month == 8 {
        212
    } else if month == 9 {
        243
    } else if month == 10 {
        273
    } else if month == 11 {
        304
    } else if month == 12 {
        334
    } else {
        365
    }
}

pub open spec fn spec_is_leap(year: int) -> bool {
    year % 4 == 0 && (year % 100 != 0 || year % 400 == 0)
}

/// A day index that orders dates chronologically: days elapsed in whole
/// years since 2000, plus days elapsed in whole months this year, plus the
/// day-of-month.
pub open spec fn spec_day_index(t: UtcTime) -> int {
    (t.year - 2000) * 365 + spec_leaps_before(t.year as int) + spec_days_before_month(
        t.month as int,
    ) + (if t.month as int > 2 && spec_is_leap(t.year as int) {
        1int
    } else {
        0int
    }) + t.day
}

/// Seconds corresponding to `t` on the day-index scale.
pub open spec fn spec_timestamp_secs(t: UtcTime) -> int {
    spec_day_index(t) * 86400 + t.hour * 3600 + t.minute * 60 + t.second
}

/// The sort key: milliseconds on the day-index scale.  For calendar-valid
/// field values it orders timestamps chronologically.
pub open spec fn spec_timestamp_ms(t: UtcTime) -> int {
    spec_timestamp_secs(t) * 1000 + t.millis
}

pub proof fn lemma_timestamp_bounds(t: UtcTime)
    requires
        wf_time(t),
    ensures
        0 <= spec_day_index(t) <= 95000,
        0 <= spec_timestamp_ms(t) < 0x7_7359_4000_000,
{
}

fn leaps_before(year: u16) -> (r: u64)
    requires
        2000 <= year <= 2257,
    ensures
        r == spec_leaps_before(year as int),
{
    let dy = (year - 2000) as u64;
    (dy + 3) / 4 - (dy + 99) / 100 + (dy + 399) / 400
}

fn days_before_month(month: u8) -> (r: u64)
    ensures
        r == spec_days_before_month(month as int),
{
    match month {
        0 => 0,
        1 => 0,
        2 => 31,
        3 => 59,
        4 => 90,
        5 => 120,
        6 => 151,
        7 => 181,
        8 => 212,
        9 => 243,
        10 => 273,
        11 => 304,
        12 => 334,
        _ => 365,
    }
}

fn is_leap(year: u16) -> (r: bool)
    ensures
        r == spec_is_leap(year as int),
{
    year % 4 == 0 && (year % 100 != 0 || year % 400 == 0)
}

impl UtcTime {
    /// The sort key for ordering entries by time.
    pub fn timestamp_ms(&self) -> (r: u64)
        requires
            wf_time(*self),
        ensures
            r == spec_timestamp_ms(*self),
    {
        proof {
            lemma_timestamp_bounds(*self);
        }
        let days: u64 = (self.year - 2000) as u64 * 365 + leaps_before(self.year)
            + days_before_month(self.month) + (if self.month > 2 && is_leap(self.year) {
            1u64
        } else {
            0u64
        }) + self.day as u64;
        let secs: u64 = days * 86400 + self.hour as u64 * 3600 + self.minute as u64 * 60
            + self.second as u64;
        secs * 1000 + self.millis as u16 as u64
    }
}

/// Seconds of `t` truncated to the start of its hour, plus the four-hour
/// grace window, on the millisecond scale: day changes are suppressed up to
/// this instant.
pub open spec fn spec_grace_until_ms(t: UtcTime) -> int {
    (spec_day_index(t) * 86400 + t.hour * 3600 + 14400) * 1000
}

impl UtcTime {
    pub fn grace_until_ms(&self) -> (r: u64)
        requires
            wf_time(*self),
        ensures
            r == spec_grace_until_ms(*self),
    {
        proof {
            lemma_timestamp_bounds(*self);
        }
        let days: u64 = (self.year - 2000) as u64 * 365 + leaps_before(self.year)
            + days_before_month(self.month) + (if self.month > 2 && is_leap(self.year) {
            1u64
        } else {
            0u64
        }) + self.day as u64;
        (days * 86400 + self.hour as u64 * 3600 + 14400) * 1000
    }
}

/// The local calendar day of `t` for a zone `offset_secs` east of UTC, as a
/// day number on the day-index scale (floor of local seconds over 86400).
pub open spec fn spec_local_day(t: UtcTime, offset_secs: int) -> int {
    let s = spec_timestamp_secs(t) + offset_secs;
    if s >= 0 {
        s / 86400
    } else {
        -1
    }
}

impl UtcTime {
    pub fn local_day(&self, offset_secs: i32) -> (r: i64)
        requires
            wf_time(*self),
            -86400 < offset_secs < 86400,
        ensures
            r == spec_local_day(*self, offset_secs as int),
    {
        proof {
            lemma_timestamp_bounds(*self);
        }
        let s: i64 = (self.timestamp_ms() / 1000) as i64 + offset_secs as i64;
        if s >= 0 {
            s / 86400
        } else {
            -1
        }
    }
}

/// Days of the month, with the fallback the record bit fields force: any
/// month value outside 1 to 12 counts as 31 days.
pub open spec fn spec_days_in_month(year: int, month: int) -> int {
    if month == 2 {
        if spec_is_leap(year) {
            29
        } else {
            28
        }
    } else if month == 4 || month == 6 || month == 9 || month == 11 {
        30
    } else {
        31
    }
}

/// The following calendar day, holding still at the top of the representable
/// range.
pub open spec fn spec_next_day(t: UtcTime) -> UtcTime {
    if t.day < spec_days_in_month(t.year as int, t.month as int) {
        UtcTime { day: (t.day + 1) as u8, ..t }
    } else if t.month < 12 {
        UtcTime { month: (t.month + 1) as u8, day: 1, ..t }
    } else if t.year < 2255 {
        UtcTime { year: (t.year + 1) as u16, month: 1, day: 1, ..t }
    } else {
        t
    }
}

/// The preceding calendar day, holding still at the bottom of the
/// representable range.
pub open spec fn spec_prev_day(t: UtcTime) -> UtcTime {
    if t.day > 1 {
        UtcTime { day: (t.day - 1) as u8, ..t }
    } else if t.month > 1 {
        UtcTime {
            month: (t.month - 1) as u8,
            day: spec_days_in_month(t.year as int, t.month - 1) as u8,
            ..t
        }
    } else if t.year > 2000 {
        UtcTime { year: (t.year - 1) as u16, month: 12, day: 31, ..t }
    } else {
        t
    }
}

/// The same instant shifted `offset_secs` east of UTC, with day rollovers
/// carried into the calendar fields.
pub open spec fn spec_to_local(t: UtcTime, offset_secs: int) -> UtcTime {
    let total0 = t.hour * 3600 + t.minute * 60 + t.second + offset_secs;
    let b1 = if total0 < 0 {
        spec_prev_day(t)
    } else {
        t
    };
    let t1 = if total0 < 0 {
        total0 + 86400
    } else {
        total0
    };
    let b2 = if t1 >= 86400 {
        spec_next_day(b1)
    } else {
        b1
    };
    let t2 = if t1 >= 86400 {
        t1 - 86400
    } else {
        t1
    };
    let b3 = if t2 >= 86400 {
        spec_next_day(b2)
    } else {
        b2
    };
    let t3 = if t2 >= 86400 {
        t2 - 86400
    } else {
        t2
    };
    UtcTime {
        year: b3.year,
        month: b3.month,
        day: b3.day,
        hour: (t3 / 3600) as u8,
        minute: ((t3 % 3600) / 60) as u8,
        second: (t3 % 60) as u8,
        millis: t.millis,
    }
}

fn days_in_month(year: u16, month: u8) -> (r: u8)
    ensures
        r == spec_days_in_month(year as int, month as int),
        28 <= r <= 31,
{
    match month {
        2 => if is_leap(year) {
            29
        } else {
            28
        },
        4 => 30,
        6 => 30,
        9 => 30,
        11 => 30,
        _ => 31,
    }
}

impl UtcTime {
    fn next_day(&self) -> (t: UtcTime)
        requires
            wf_time(*self),
        ensures
            t == spec_next_day(*self),
            wf_time(t),
    {
        let dim = days_in_month(self.year, self.month);
        if self.day < dim {
            UtcTime { day: self.day + 1, ..*self }
        } else if self.month < 12 {
            UtcTime { month: self.month + 1, day: 1, ..*self }
        } else if self.year < 2255 {
            UtcTime { year: self.year + 1, month: 1, day: 1, ..*self }
        } else {
            *self
        }
    }

    fn prev_day(&self) -> (t: UtcTime)
        requires
            wf_time(*self),
        ensures
            t == spec_prev_day(*self),
            wf_time(t),
    {
        if self.day > 1 {
            UtcTime { day: self.day - 1, ..*self }
        } else if self.month > 1 {
            UtcTime {
                month: self.month - 1,
                day: days_in_month(self.year, self.month - 1),
                ..*self
            }
        } else if self.year > 2000 {
            UtcTime { year: self.year - 1, month: 12, day: 31, ..*self }
        } else {
            *self
        }
    }

    /// The same instant shifted into a zone `offset_secs` east of UTC,
    /// carrying day rollovers into the calendar fields.  Used only to
    /// render local timestamps; ordering always uses the UTC key.
    pub fn to_local(&self, offset_secs: i32) -> (t: UtcTime)
        requires
            wf_time(*self),
            -86400 < offset_secs < 86400,
        ensures
            t == spec_to_local(*self, offset_secs as int),
            wf_time(t),
            t.hour < 24 && t.minute < 60 && t.second < 60,
            t.millis == self.millis,
    {
        let tod: i64 = self.hour as i64 * 3600 + self.minute as i64 * 60 + self.second as i64;
        let mut total: i64 = tod + offset_secs as i64;
        let mut base: UtcTime = *self;
        if total < 0 {
            base = base.prev_day();
            total = total + 86400;
        }
        if total >= 86400 {
            base = base.next_day();
            total = total - 86400;
        }
        if total >= 86400 {
            base = base.next_day();
            total = total - 86400;
        }
        UtcTime {
            year: base.year,
            month: base.month,
            day: base.day,
            hour: (total / 3600) as u8,
            minute: ((total % 3600) / 60) as u8,
            second: (total % 60) as u8,
            millis: self.millis,
        }
    }
}

/// The ISO-8601 rendering with millisecond precision and UTC designator,
/// for example `2025-07-31T20:08:44.441Z`.
pub open spec fn spec_rfc3339(t: UtcTime) -> Seq<char> {
    spec_dec_padded(t.year as nat, 4) + "-"@ + spec_dec_padded(t.month as nat, 2) + "-"@
        + spec_dec_padded(t.day as nat, 2) + "T"@ + spec_dec_padded(t.hour as nat, 2) + ":"@
        + spec_dec_padded(t.minute as nat, 2) + ":"@ + spec_dec_padded(t.second as nat, 2) + "."@
        + spec_dec_padded(t.millis as nat, 3) + "Z"@
}

/// The timestamp part of an output file name, `%Y-%m-%d_%H-%M`.
pub open spec fn spec_file_stamp(t: UtcTime) -> Seq<char> {
    spec_dec_padded(t.year as nat, 4) + "-"@ + spec_dec_padded(t.month as nat, 2) + "-"@
        + spec_dec_padded(t.day as nat, 2) + "_"@ + spec_dec_padded(t.hour as nat, 2) + "-"@
        + spec_dec_padded(t.minute as nat, 2)
}

impl UtcTime {
    pub fn rfc3339(&self) -> (s: String)
        ensures
            s@ == spec_rfc3339(*self),
    {
        let mut s = u64_dec_padded(self.year as u64, 4);
        s.append("-");
        s.append(u64_dec_padded(self.month as u64, 2).as_str());
        s.append("-");
        s.append(u64_dec_padded(self.day as u64, 2).as_str());
        s.append("T");
        s.append(u64_dec_padded(self.hour as u64, 2).as_str());
        s.append(":");
        s.append(u64_dec_padded(self.minute as u64, 2).as_str());
        s.append(":");
        s.append(u64_dec_padded(self.second as u64, 2).as_str());
        s.append(".");
        s.append(u64_dec_padded(self.millis as u64, 3).as_str());
        s.append("Z");
        s
    }

    pub fn file_stamp(&self) -> (s: String)
        ensures
            s@ == spec_file_stamp(*self),
    {
        let mut s = u64_dec_padded(self.year as u64, 4);
        s.append("-");
        s.append(u64_dec_padded(self.month as u64, 2).as_str());
        s.append("-");
        s.append(u64_dec_padded(self.day as u64, 2).as_str());
        s.append("_");
        s.append(u64_dec_padded(self.hour as u64, 2).as_str());
        s.append("-");
        s.append(u64_dec_padded(self.minute as u64, 2).as_str());
        s
    }
}

} // verus!
