//! Wall-clock time as the scheduler sees it: local calendar days, times of
//! day and instants, all counted in milliseconds of the local wall clock.
use vstd::prelude::*;

verus! {

/// Milliseconds in one calendar day.
pub const DAY_MILLIS: i64 = 86_400_000;

/// The largest distance from 1970-01-01T00:00 that an instant may have.
pub const MAX_MILLIS: i64 = 1_152_921_504_606_846_976;

/// The largest distance from 1970-01-01T00:00 that the start of a day
/// inside the computed range may have.
pub const MAX_DAY_SPAN: i64 = 1_152_921_504_693_246_976;

/// A calendar date, as the number of days since 1970-01-01 (negative before).
#[derive(Debug, Clone, Copy, PartialEq, Eq, Structural)]
pub struct Date {
    pub day: i64,
}

/// A time of day, in milliseconds since midnight.
#[derive(Debug, Clone, Copy, PartialEq, Eq, Structural)]
pub struct LocalTime {
    pub ms: u32,
}

/// A local wall-clock instant, in milliseconds since 1970-01-01T00:00.
#[derive(Debug, Clone, Copy, PartialEq, Eq, Structural)]
pub struct LocalDateTime {
    pub ms: i64,
}

/// A signed span of time, in milliseconds.
#[derive(Debug, Clone, Copy, PartialEq, Eq, Structural)]
pub struct TimeDelta {
    pub ms: i64,
}

/// Day number of 1970-01-01 when 0001-01-01 is day 1.
pub const UNIX_EPOCH_DAY_CE: i64 = 719_163;

/// Relies on chrono's `Local::now`: the wall clock's date (days from the
/// common era, 0001-01-01 being day 1), its seconds since midnight
/// (`num_seconds_from_midnight`, below 86 400) and the nanoseconds within
/// the second (`nanosecond`, below 2 000 000 000, a leap second counting
/// from 1 000 000 000).
#[verifier::external_body]
fn clock_parts() -> (r: (i32, u32, u32))
    ensures
        r.1 < 86_400,
        r.2 < 2_000_000_000,
{
    let now = chrono::Local::now().naive_local();
    let days = chrono::Datelike::num_days_from_ce(&now.date());
    let secs = chrono::Timelike::num_seconds_from_midnight(&now.time());
    (days, secs, chrono::Timelike::nanosecond(&now.time()))
}

/// The day number (0001-01-01 being day 1) of the calendar date
/// `year-month-day`, if there is such a date.
pub uninterp spec fn days_from_ce_of(year: int, month: int, day: int) -> Option<int>;

/// Relies on chrono's `NaiveDate::from_ymd_opt` and `num_days_from_ce`: the
/// day number of the date, or `None` where the date does not exist.
#[verifier::external_body]
fn civil_day(year: i32, month: u32, day: u32) -> (r: Option<i32>)
    ensures
        r matches Some(v) ==> days_from_ce_of(year as int, month as int, day as int) == Some(v as int),
        r is None ==> days_from_ce_of(year as int, month as int, day as int) is None,
{
    match chrono::NaiveDate::from_ymd_opt(year, month, day) {
        Some(date) => Some(chrono::Datelike::num_days_from_ce(&date)),
        None => None,
    }
}

impl Date {
    /// The date `year-month-day`, if there is such a date.
    pub fn from_ymd(year: i32, month: u32, day: u32) -> (r: Option<Date>)
        ensures
            match days_from_ce_of(year as int, month as int, day as int) {
                Some(n) => i32::MIN <= n <= i32::MAX && r == Some(Date { day: (n - UNIX_EPOCH_DAY_CE) as i64 }),
                None => r is None,
            },
            r matches Some(d) ==> -2147483648 - UNIX_EPOCH_DAY_CE <= d.day <= 2147483647 - UNIX_EPOCH_DAY_CE,
    {
        match civil_day(year, month, day) {
            Some(n) => Some(Date { day: n as i64 - UNIX_EPOCH_DAY_CE }),
            None => None,
        }
    }
}

/// The year, month, day, hour, minute and second that chrono reads from
/// `text` after the strftime-style format `fmt`, if it reads a date and time.
pub uninterp spec fn datetime_fields_of(text: Seq<char>, fmt: Seq<char>) -> Option<
    (int, int, int, int, int, int),
>;

/// Relies on chrono's `NaiveDateTime::parse_from_str`: the fields of the
/// date and time that `text` writes after `fmt` (a leap second reads as
/// second 59).
#[verifier::external_body]
pub(crate) fn datetime_fields(text: &str, fmt: &str) -> (r: Option<(i32, u32, u32, u32, u32, u32)>)
    ensures
        r matches Some(f) ==> datetime_fields_of(text@, fmt@) == Some(
            (f.0 as int, f.1 as int, f.2 as int, f.3 as int, f.4 as int, f.5 as int),
        ),
        r is None ==> datetime_fields_of(text@, fmt@) is None,
{
    match chrono::NaiveDateTime::parse_from_str(text, fmt) {
        Ok(t) => Some((
            chrono::Datelike::year(&t),
            chrono::Datelike::month(&t),
            chrono::Datelike::day(&t),
            chrono::Timelike::hour(&t),
            chrono::Timelike::minute(&t),
            chrono::Timelike::second(&t),
        )),
        Err(_) => None,
    }
}

/// The local wall-clock time now.
pub fn now() -> (r: LocalDateTime)
    ensures
        r.in_range(),
{
    let (days_ce, secs, nanos) = clock_parts();
    let day: i64 = days_ce as i64 - UNIX_EPOCH_DAY_CE;
    let ms_of_day: i64 = secs as i64 * 1000 + nanos as i64 / 1_000_000;
    assert(-MAX_MILLIS <= day * DAY_MILLIS + ms_of_day <= MAX_MILLIS) by (nonlinear_arith)
        requires
            -2_147_483_648 - UNIX_EPOCH_DAY_CE <= day <= 2_147_483_647 - UNIX_EPOCH_DAY_CE,
            0 <= ms_of_day < 86_402_000,
    ;
    LocalDateTime { ms: day * DAY_MILLIS + ms_of_day }
}

impl LocalTime {
    /// A time of day lies before the next midnight.
    pub open spec fn wf(self) -> bool {
        self.ms < DAY_MILLIS
    }

    /// The time of day `h:m:s`, if each part is in its range.
    pub fn from_hms(h: u32, m: u32, s: u32) -> (r: Option<LocalTime>)
        ensures
            r is Some <==> (h < 24 && m < 60 && s < 60),
            r is Some ==> r->0.ms == ((h * 60 + m) * 60 + s) * 1000 && r->0.wf(),
    {
        if h < 24 && m < 60 && s < 60 {
            Some(LocalTime { ms: ((h * 60 + m) * 60 + s) * 1000 })
        } else {
            None
        }
    }
}

impl LocalDateTime {
    /// The instant lies in the range the scheduler computes with.
    pub open spec fn in_range(self) -> bool {
        -MAX_MILLIS <= self.ms <= MAX_MILLIS
    }

    /// Whether the instant lies in the range the scheduler computes with.
    pub fn is_in_range(&self) -> (r: bool)
        ensures
            r == self.in_range(),
    {
        -MAX_MILLIS <= self.ms && self.ms <= MAX_MILLIS
    }

    /// The calendar day the instant falls on.
    pub open spec fn day_of(self) -> int {
        self.ms as int / DAY_MILLIS as int
    }

    /// The calendar date the instant falls on.
    pub fn date(&self) -> (r: Date)
        requires
            self.in_range(),
        ensures
            r.day == self.day_of(),
            r.day * DAY_MILLIS <= self.ms < (r.day + 1) * DAY_MILLIS,
    {
        if self.ms >= 0 {
            Date { day: self.ms / DAY_MILLIS }
        } else {
            let back: i64 = -(self.ms + 1);
            let q: i64 = back / DAY_MILLIS;
            assert(self.ms as int / DAY_MILLIS as int == -q - 1) by (nonlinear_arith)
                requires
                    back == -(self.ms + 1),
                    q == back / DAY_MILLIS,
                    self.ms < 0,
                    DAY_MILLIS == 86_400_000,
            ;
            Date { day: -q - 1 }
        }
    }

    /// The instant at time of day `time` on `date`.
    pub fn at(date: Date, time: LocalTime) -> (r: LocalDateTime)
        requires
            -MAX_DAY_SPAN <= date.day * DAY_MILLIS <= MAX_DAY_SPAN,
        ensures
            r.ms == date.day * DAY_MILLIS + time.ms,
    {
        LocalDateTime { ms: date.day * DAY_MILLIS + time.ms as i64 }
    }
}

} // verus!
