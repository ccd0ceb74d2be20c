//! Wall-clock time in the proleptic Gregorian calendar.

use time::error::ComponentRange;
use vstd::prelude::*;

verus! {

/// Whether a year has a 29th of February.
pub open spec fn is_leap_year(year: int) -> bool {
    year % 4 == 0 && (year % 100 != 0 || year % 400 == 0)
}

/// Days in a month of a year.
pub open spec fn days_in_month(year: int, month: int) -> int {
    if month == 2 {
        if is_leap_year(year) {
            29
        } else {
            28
        }
    } else if month == 4 || month == 6 || month == 9 || month == 11 {
        30
    } else {
        31
    }
}

/// Days of a year before the first of a month.
pub open spec fn days_before_month(year: int, month: int) -> int
    decreases month,
{
    if month <= 1 {
        0
    } else {
        days_before_month(year, month - 1) + days_in_month(year, month - 1)
    }
}

/// Days from the first of January of year 1 to that of the given year.
pub open spec fn days_before_year(year: int) -> int {
    365 * (year - 1) + (year - 1) / 4 - (year - 1) / 100 + (year - 1) / 400
}

/// Days from the first of January 1970 to the given date.
pub open spec fn epoch_day(year: int, month: int, day: int) -> int {
    days_before_year(year) + days_before_month(year, month) + day - 1 - days_before_year(1970)
}

/// Seconds in a day.
pub const SECONDS_PER_DAY: i64 = 86_400;

/// The first second of the calendar, at the start of year -9999, in seconds
/// since 1970.
pub const CALENDAR_FIRST_SECOND: i64 = -377_705_116_800;

/// The last second of the calendar, at the end of year 9999, in seconds since
/// 1970.
pub const CALENDAR_LAST_SECOND: i64 = 253_402_300_799;

/// A date and a time of day as a clock on the wall shows them.
#[derive(Debug, Clone, Copy, PartialEq, Eq, Structural)]
pub struct LocalTime {
    pub year: i32,
    pub month: u8,
    pub day: u8,
    pub hour: u8,
    pub minute: u8,
    pub second: u8,
}

impl LocalTime {
    /// The date exists in the calendar, and the time of day exists.
    pub open spec fn wf(self) -> bool {
        &&& -9999 <= self.year <= 9999
        &&& 1 <= self.month <= 12
        &&& 1 <= self.day <= days_in_month(self.year as int, self.month as int)
        &&& self.hour < 24
        &&& self.minute < 60
        &&& self.second < 60
    }

    /// Seconds that the clock shows since the start of 1970.
    pub open spec fn clock_seconds(self) -> int {
        epoch_day(self.year as int, self.month as int, self.day as int) * SECONDS_PER_DAY
            + self.hour * 3600 + self.minute * 60 + self.second
    }
}

/// Whether a number of seconds since 1970 lies in the calendar.
pub open spec fn in_calendar(seconds: int) -> bool {
    CALENDAR_FIRST_SECOND <= seconds <= CALENDAR_LAST_SECOND
}

/// The error of a value outside its range.
#[verifier::external_type_specification]
#[verifier::external_body]
pub struct ExComponentRange(time::error::ComponentRange);

/// `OffsetDateTime::from_unix_timestamp` followed by `OffsetDateTime::to_offset`:
/// the wall-clock time, so many seconds ahead of UTC, of a number of seconds
/// since 1970. A number outside the calendar of years -9999 to 9999 is an error.
/// `to_offset` panics where only the shifted time lies outside, and
/// `UtcOffset::from_whole_seconds` takes no offset of 26 hours or more.
#[verifier::external_body]
pub(crate) fn wall_clock(unix_seconds: i64, offset_seconds: i32) -> (r: Result<
    LocalTime,
    ComponentRange,
>)
    requires
        -93_600 < offset_seconds < 93_600,
        in_calendar(unix_seconds as int) ==> in_calendar(unix_seconds + offset_seconds),
    ensures
        r is Ok <==> in_calendar(unix_seconds as int),
        r matches Ok(local) ==> local.wf() && local.clock_seconds() == unix_seconds
            + offset_seconds,
{
    let utc = time::OffsetDateTime::from_unix_timestamp(unix_seconds)?;
    let local = utc.to_offset(time::UtcOffset::from_whole_seconds(offset_seconds)?);
    Ok(LocalTime {
        year: local.year(),
        month: u8::from(local.month()),
        day: local.day(),
        hour: local.hour(),
        minute: local.minute(),
        second: local.second(),
    })
}

/// How far the clock of the log is ahead of UTC, in seconds.
pub const FIXED_UTC_PLUS_8_SECONDS: i64 = 28_800;

/// A point in time outside the calendar.
#[derive(Debug, Clone, Copy, PartialEq, Eq, Structural)]
pub struct OutsideCalendar;

/// Whether shifting a point in time ahead of UTC leads out of the calendar.
pub open spec fn shift_leaves_calendar(unix_seconds: int) -> bool {
    in_calendar(unix_seconds) && !in_calendar(unix_seconds + FIXED_UTC_PLUS_8_SECONDS)
}

/// Whether shifting a point in time ahead of UTC leads out of the calendar.
pub fn leaves_calendar(unix_seconds: i64) -> (r: bool)
    ensures
        r == shift_leaves_calendar(unix_seconds as int),
{
    CALENDAR_LAST_SECOND - FIXED_UTC_PLUS_8_SECONDS < unix_seconds && unix_seconds
        <= CALENDAR_LAST_SECOND
}

/// The date and time of day in UTC+8 of a number of seconds since 1970.
pub fn shanghai_time(unix_seconds: i64) -> (r: Result<LocalTime, OutsideCalendar>)
    requires
        !shift_leaves_calendar(unix_seconds as int),
    ensures
        r is Ok <==> in_calendar(unix_seconds as int),
        r matches Ok(local) ==> local.wf() && local.clock_seconds() == unix_seconds
            + FIXED_UTC_PLUS_8_SECONDS,
{
    match wall_clock(unix_seconds, FIXED_UTC_PLUS_8_SECONDS as i32) {
        Ok(local) => Ok(local),
        Err(_) => Err(OutsideCalendar),
    }
}

proof fn lemma_days_before_month(year: int, earlier: int, later: int)
    requires
        1 <= earlier < later <= 13,
    ensures
        days_before_month(year, earlier) + days_in_month(year, earlier) <= days_before_month(
            year,
            later,
        ),
    decreases later,
{
    if earlier < later - 1 {
        lemma_days_before_month(year, earlier, later - 1);
    }
}

proof fn lemma_days_before_year(earlier: int, later: int)
    requires
        earlier < later,
    ensures
        days_before_year(earlier) + days_before_month(earlier, 13) <= days_before_year(later),
    decreases later - earlier,
{
    reveal_with_fuel(days_before_month, 14);
    let length: int = if is_leap_year(later - 1) {
        366
    } else {
        365
    };
    assert(days_before_year(later - 1) + length == days_before_year(later));
    if earlier < later - 1 {
        lemma_days_before_year(earlier, later - 1);
    }
}

proof fn lemma_day_within_year(local: LocalTime)
    requires
        local.wf(),
    ensures
        days_before_year(local.year as int) <= epoch_day(
            local.year as int,
            local.month as int,
            local.day as int,
        ) + days_before_year(1970) < days_before_year(local.year as int) + days_before_month(
            local.year as int,
            13,
        ),
{
    let year = local.year as int;
    lemma_days_before_month(year, local.month as int, 13);
    if local.month > 1 {
        lemma_days_before_month(year, 1, local.month as int);
    }
}

proof fn lemma_same_day(left: LocalTime, right: LocalTime)
    requires
        left.wf(),
        right.wf(),
        epoch_day(left.year as int, left.month as int, left.day as int) == epoch_day(
            right.year as int,
            right.month as int,
            right.day as int,
        ),
    ensures
        left.year == right.year,
        left.month == right.month,
        left.day == right.day,
{
    lemma_day_within_year(left);
    lemma_day_within_year(right);
    if left.year < right.year {
        lemma_days_before_year(left.year as int, right.year as int);
    } else if right.year < left.year {
        lemma_days_before_year(right.year as int, left.year as int);
    } else if left.month < right.month {
        lemma_days_before_month(left.year as int, left.month as int, right.month as int);
    } else if right.month < left.month {
        lemma_days_before_month(left.year as int, right.month as int, left.month as int);
    }
}

proof fn lemma_same_time_of_day(
    day: int,
    seconds: int,
    other_day: int,
    other_seconds: int,
)
    requires
        0 <= seconds < SECONDS_PER_DAY,
        0 <= other_seconds < SECONDS_PER_DAY,
        day * SECONDS_PER_DAY + seconds == other_day * SECONDS_PER_DAY + other_seconds,
    ensures
        day == other_day,
        seconds == other_seconds,
{
}

/// The clock never shows the same date and time of day twice.
pub proof fn clock_reading_is_unique(left: LocalTime, right: LocalTime)
    requires
        left.wf(),
        right.wf(),
        left.clock_seconds() == right.clock_seconds(),
    ensures
        left == right,
{
    lemma_same_time_of_day(
        epoch_day(left.year as int, left.month as int, left.day as int),
        left.hour * 3600 + left.minute * 60 + left.second,
        epoch_day(right.year as int, right.month as int, right.day as int),
        right.hour * 3600 + right.minute * 60 + right.second,
    );
    lemma_same_day(left, right);
}

impl LocalTime {
    /// Whether a date and time of day come before others: by the first of year,
    /// month, day, hour, minute and second that differs.
    pub open spec fn comes_before(self, other: LocalTime) -> bool {
        if self.year != other.year {
            self.year < other.year
        } else if self.month != other.month {
            self.month < other.month
        } else if self.day != other.day {
            self.day < other.day
        } else if self.hour != other.hour {
            self.hour < other.hour
        } else if self.minute != other.minute {
            self.minute < other.minute
        } else {
            self.second < other.second
        }
    }
}

proof fn lemma_earlier_day(left: LocalTime, right: LocalTime)
    requires
        left.wf(),
        right.wf(),
        left.comes_before(right),
        left.year != right.year || left.month != right.month || left.day != right.day,
    ensures
        epoch_day(left.year as int, left.month as int, left.day as int) < epoch_day(
            right.year as int,
            right.month as int,
            right.day as int,
        ),
{
    lemma_day_within_year(left);
    lemma_day_within_year(right);
    if left.year < right.year {
        lemma_days_before_year(left.year as int, right.year as int);
    } else if left.month < right.month {
        lemma_days_before_month(left.year as int, left.month as int, right.month as int);
    }
}

proof fn lemma_earlier_seconds(day: int, seconds: int, later_day: int, later_seconds: int)
    requires
        0 <= seconds < SECONDS_PER_DAY,
        0 <= later_seconds < SECONDS_PER_DAY,
        day < later_day || (day == later_day && seconds < later_seconds),
    ensures
        day * SECONDS_PER_DAY + seconds < later_day * SECONDS_PER_DAY + later_seconds,
{
}

proof fn lemma_earlier_clock(left: LocalTime, right: LocalTime)
    requires
        left.wf(),
        right.wf(),
        left.comes_before(right),
    ensures
        left.clock_seconds() < right.clock_seconds(),
{
    if left.year != right.year || left.month != right.month || left.day != right.day {
        lemma_earlier_day(left, right);
    }
    lemma_earlier_seconds(
        epoch_day(left.year as int, left.month as int, left.day as int),
        left.hour * 3600 + left.minute * 60 + left.second,
        epoch_day(right.year as int, right.month as int, right.day as int),
        right.hour * 3600 + right.minute * 60 + right.second,
    );
}

/// The clock shows dates and times of day in their order.
pub proof fn clock_readings_are_ordered(left: LocalTime, right: LocalTime)
    requires
        left.wf(),
        right.wf(),
    ensures
        left.clock_seconds() < right.clock_seconds() <==> left.comes_before(right),
{
    if left.comes_before(right) {
        lemma_earlier_clock(left, right);
    } else if right.comes_before(left) {
        lemma_earlier_clock(right, left);
    } else {
        assert(left == right);
    }
}

/// A point in time lies in the calendar and leaves it when shifted by eight hours in
/// exactly the last eight hours of year 9999.
pub proof fn the_last_hours_leave_the_calendar(unix_seconds: int)
    ensures
        in_calendar(unix_seconds) <==> -377_705_116_800 <= unix_seconds <= 253_402_300_799,
        shift_leaves_calendar(unix_seconds) <==> 253_402_300_799 - 8 * 3600 < unix_seconds
            <= 253_402_300_799,
{
}

proof fn lemma_year_of_day(day: int, year: int)
    requires
        days_before_year(-9999) <= day < days_before_year(year + 1),
        year >= -9999,
    ensures
        exists|y: int|
            -9999 <= y <= year && #[trigger] days_before_year(y) <= day && day < days_before_year(y)
                + days_before_month(y, 13),
    decreases year + 9999,
{
    reveal_with_fuel(days_before_month, 14);
    let length: int = if is_leap_year(year) {
        366
    } else {
        365
    };
    assert(days_before_year(year) + length == days_before_year(year + 1));
    if day >= days_before_year(year) {
        assert(days_before_year(year) <= day);
    } else {
        lemma_year_of_day(day, year - 1);
    }
}

proof fn lemma_month_of_day(year: int, day: int, month: int)
    requires
        1 <= month <= 12,
        0 <= day < days_before_month(year, month + 1),
    ensures
        exists|m: int|
            1 <= m <= month && #[trigger] days_before_month(year, m) <= day && day
                < days_before_month(year, m) + days_in_month(year, m),
    decreases month,
{
    if day >= days_before_month(year, month) {
        assert(days_before_month(year, month) <= day);
    } else {
        lemma_month_of_day(year, day, month - 1);
    }
}

/// Every second of the calendar is shown by the clock.
pub proof fn every_second_is_shown(seconds: int)
    requires
        in_calendar(seconds),
    ensures
        exists|local: LocalTime| local.wf() && #[trigger] local.clock_seconds() == seconds,
{
    let day = seconds / 86_400;
    let rest = seconds % 86_400;
    let count = day + days_before_year(1970);
    assert(days_before_year(-9999) <= count < days_before_year(10_000));
    lemma_year_of_day(count, 9999);
    let y = choose|y: int|
        -9999 <= y <= 9999 && #[trigger] days_before_year(y) <= count && count < days_before_year(y)
            + days_before_month(y, 13);
    lemma_month_of_day(y, count - days_before_year(y), 12);
    let m = choose|m: int|
        1 <= m <= 12 && #[trigger] days_before_month(y, m) <= count - days_before_year(y) && count
            - days_before_year(y) < days_before_month(y, m) + days_in_month(y, m);
    let d = count - days_before_year(y) - days_before_month(y, m) + 1;
    let local = LocalTime {
        year: y as i32,
        month: m as u8,
        day: d as u8,
        hour: (rest / 3600) as u8,
        minute: (rest / 60 % 60) as u8,
        second: (rest % 60) as u8,
    };
    assert(epoch_day(y, m, d) == day);
    assert(rest == (rest / 3600) * 3600 + (rest / 60 % 60) * 60 + rest % 60);
    assert(local.clock_seconds() == seconds);
}

/// The clock of the log shows a point in time eight hours ahead of UTC, for every second
/// of the calendar and no other.
pub proof fn points_in_time_are_shown_eight_hours_ahead(
    unix_seconds: i64,
    shown: Result<LocalTime, OutsideCalendar>,
    leaves: bool,
)
    requires
        call_ensures(leaves_calendar, (unix_seconds,), leaves),
        !leaves,
        call_ensures(shanghai_time, (unix_seconds,), shown),
    ensures
        shown is Ok <==> -377_705_116_800 <= unix_seconds <= 253_402_300_799,
        shown matches Ok(local) ==> {
            &&& local.wf()
            &&& local.clock_seconds() == unix_seconds + 8 * 3600
            &&& forall|other: LocalTime|
                other.wf() && #[trigger] other.clock_seconds() == unix_seconds + 8 * 3600 ==> other
                    == local
        },
{
    if let Ok(local) = shown {
        assert forall|other: LocalTime|
            other.wf() && #[trigger] other.clock_seconds() == unix_seconds + 8 * 3600 implies other
            == local by {
            clock_reading_is_unique(other, local);
        }
    }
}

/// It is told exactly of the last eight hours of the calendar that they leave it.
pub proof fn the_last_hours_are_told(unix_seconds: i64, leaves: bool)
    requires
        call_ensures(leaves_calendar, (unix_seconds,), leaves),
    ensures
        leaves <==> 253_402_300_799 - 8 * 3600 < unix_seconds <= 253_402_300_799,
{
}

} // verus!
