//! Calendar timestamps as plain values: local wall-clock fields plus a UTC
//! offset. Durations between timestamps are computed by converting to
//! seconds since the epoch with ordinary calendar arithmetic.

use vstd::prelude::*;

verus! {

/// A calendar day in local time.
#[derive(Clone, Copy, Debug, PartialEq, Eq, Structural)]
pub struct Date {
    pub year: u16,
    pub month: u8,
    pub day: u8,
}

/// One local wall-clock instant: calendar fields plus the UTC offset (in
/// seconds, positive east of Greenwich) that was in effect when it was read.
#[derive(Clone, Copy, Debug, PartialEq, Eq, Structural)]
pub struct Timestamp {
    pub year: u16,
    pub month: u8,
    pub day: u8,
    pub hour: u8,
    pub minute: u8,
    pub second: u8,
    pub offset_seconds: i32,
}

pub open spec fn is_leap_year(y: int) -> bool {
    y % 4 == 0 && (y % 100 != 0 || y % 400 == 0)
}

pub open spec fn days_in_month(y: int, m: int) -> int {
    if m == 2 {
        if is_leap_year(y) {
            29
        } else {
            28
        }
    } else if m == 4 || m == 6 || m == 9 || m == 11 {
        30
    } else {
        31
    }
}

/// Days since 1970-01-01 of the civil date (y, m, d), by the usual
/// era-of-400-years decomposition of the Gregorian calendar.
pub open spec fn days_from_epoch(y: int, m: int, d: int) -> int {
    let yy = if m <= 2 {
        y + 399
    } else {
        y + 400
    };
    let era = yy / 400;
    let yoe = yy % 400;
    let mp = if m > 2 {
        m - 3
    } else {
        m + 9
    };
    let doy = (153 * mp + 2) / 5 + d - 1;
    let doe = yoe * 365 + yoe / 4 - yoe / 100 + doy;
    era * 146097 + doe - 719468 - 146097
}

impl Timestamp {
    /// Field ranges of a representable timestamp. The offset is a whole
    /// number of minutes, as an ISO-8601 `+HH:MM` offset can express.
    pub open spec fn wf(self) -> bool {
        &&& self.year <= 9999
        &&& 1 <= self.month <= 12
        &&& 1 <= self.day <= days_in_month(self.year as int, self.month as int)
        &&& self.hour <= 23
        &&& self.minute <= 59
        &&& self.second <= 59
        &&& -86399 <= self.offset_seconds <= 86399
        &&& self.offset_seconds % 60 == 0
    }

    /// The instant as seconds since 1970-01-01T00:00:00Z.
    pub open spec fn epoch_secs(self) -> int {
        days_from_epoch(self.year as int, self.month as int, self.day as int) * 86400
            + self.hour * 3600 + self.minute * 60 + self.second - self.offset_seconds
    }

    pub open spec fn spec_date(self) -> Date {
        Date { year: self.year, month: self.month, day: self.day }
    }

    /// The local calendar day this instant falls on.
    pub fn date(&self) -> (d: Date)
        ensures
            d == self.spec_date(),
    {
        Date { year: self.year, month: self.month, day: self.day }
    }

    /// Builds a timestamp from its fields, rejecting any value outside the
    /// representable ranges.
    pub fn new(
        year: u16,
        month: u8,
        day: u8,
        hour: u8,
        minute: u8,
        second: u8,
        offset_seconds: i32,
    ) -> (r: Option<Timestamp>)
        ensures
            ({
                let t = Timestamp { year, month, day, hour, minute, second, offset_seconds };
                if t.wf() {
                    r == Some(t)
                } else {
                    r == None::<Timestamp>
                }
            }),
    {
        let ok_offset = -86399 <= offset_seconds && offset_seconds <= 86399 && {
            let a: i32 = if offset_seconds < 0 {
                -offset_seconds
            } else {
                offset_seconds
            };
            a % 60 == 0
        };
        if year <= 9999 && 1 <= month && month <= 12 && 1 <= day && hour <= 23 && minute <= 59
            && second <= 59 && ok_offset && day <= days_in_month_of(year, month) {
            Some(Timestamp { year, month, day, hour, minute, second, offset_seconds })
        } else {
            None
        }
    }

    /// Seconds since the epoch, computed from the calendar fields.
    pub fn epoch_seconds(&self) -> (r: i64)
        requires
            self.wf(),
        ensures
            r == self.epoch_secs(),
    {
        let yy: u32 = if self.month <= 2 {
            self.year as u32 + 399
        } else {
            self.year as u32 + 400
        };
        let era: u32 = yy / 400;
        let yoe: u32 = yy % 400;
        let mp: u32 = if self.month > 2 {
            self.month as u32 - 3
        } else {
            self.month as u32 + 9
        };
        let doy: u32 = (153 * mp + 2) / 5 + self.day as u32 - 1;
        let doe: u32 = yoe * 365 + yoe / 4 - yoe / 100 + doy;
        let days: i64 = era as i64 * 146097 + doe as i64 - 719468 - 146097;
        days * 86400 + self.hour as i64 * 3600 + self.minute as i64 * 60 + self.second as i64
            - self.offset_seconds as i64
    }
}

/// Epoch seconds of any representable timestamp stay far inside `i64`.
pub proof fn lemma_epoch_secs_bounds(t: Timestamp)
    requires
        t.wf(),
    ensures
        -100_000_000_000 <= t.epoch_secs() <= 400_000_000_000,
{
    let y = t.year as int;
    let m = t.month as int;
    let d = t.day as int;
    let yy = if m <= 2 {
        y + 399
    } else {
        y + 400
    };
    assert(399 <= yy <= 10399);
    let era = yy / 400;
    let yoe = yy % 400;
    assert(0 <= era <= 25);
    assert(0 <= yoe <= 399);
    let mp = if m > 2 {
        m - 3
    } else {
        m + 9
    };
    assert(0 <= mp <= 11);
    let doy = (153 * mp + 2) / 5 + d - 1;
    assert(0 <= (153 * mp + 2) / 5 <= 337);
    assert(0 <= doy <= 367);
    let doe = yoe * 365 + yoe / 4 - yoe / 100 + doy;
    assert(0 <= yoe * 365 <= 145635);
    assert(0 <= yoe / 4 <= 99);
    assert(0 <= yoe / 100 <= 3);
    assert(-3 <= doe <= 146101);
    let days = era * 146097 + doe - 719468 - 146097;
    assert(-865568 <= days <= 2933961);
    assert(days == days_from_epoch(y, m, d));
}

/// Days in the given month of the given year.
pub fn days_in_month_of(year: u16, month: u8) -> (r: u8)
    requires
        1 <= month <= 12,
    ensures
        r as int == days_in_month(year as int, month as int),
{
    if month == 2 {
        if year % 4 == 0 && (year % 100 != 0 || year % 400 == 0) {
            29
        } else {
            28
        }
    } else if month == 4 || month == 6 || month == 9 || month == 11 {
        30
    } else {
        31
    }
}

/// Relies on chrono::Local::now together with the chrono::Datelike and
/// chrono::Timelike accessors and Offset::fix().local_minus_utc(), to read
/// the current local wall-clock time as plain calendar fields. Nothing can
/// be promised of the clock's value.
#[verifier::external_body]
fn now_parts() -> (r: (i32, u32, u32, u32, u32, u32, i32)) {
    let now = chrono::Local::now();
    let off = chrono::Offset::fix(chrono::DateTime::offset(&now)).local_minus_utc();
    (
        chrono::Datelike::year(&now),
        chrono::Datelike::month(&now),
        chrono::Datelike::day(&now),
        chrono::Timelike::hour(&now),
        chrono::Timelike::minute(&now),
        chrono::Timelike::second(&now),
        off,
    )
}

/// The current local time. Readings outside the representable field ranges
/// (a year beyond 9999, an offset not on a whole minute) are clamped to the
/// nearest representable instant; no real clock produces one.
pub fn now_local() -> (t: Timestamp)
    ensures
        t.wf(),
{
    let (y, mo, d, h, mi, s, off) = now_parts();
    if 0 <= y && y <= 9999 && 1 <= mo && mo <= 12 && 1 <= d && d <= 31 && h <= 23 && mi <= 59
        && s <= 59 && -86399 <= off && off <= 86399 {
        let a: i32 = if off < 0 {
            -off
        } else {
            off
        };
        let whole: i32 = a - a % 60;
        let off_min: i32 = if off < 0 {
            -whole
        } else {
            whole
        };
        match Timestamp::new(y as u16, mo as u8, d as u8, h as u8, mi as u8, s as u8, off_min) {
            Some(t) => t,
            None => epoch_start(),
        }
    } else {
        epoch_start()
    }
}

/// 1970-01-01T00:00:00+00:00, the fallback for an unrepresentable clock
/// reading.
pub fn epoch_start() -> (t: Timestamp)
    ensures
        t.wf(),
        t.epoch_secs() == 0,
{
    let t = Timestamp {
        year: 1970,
        month: 1,
        day: 1,
        hour: 0,
        minute: 0,
        second: 0,
        offset_seconds: 0,
    };
    t
}

} // verus!
