//! When files are archived, and under which names.

use vstd::prelude::*;

use crate::calendar::{
    clock_reading_is_unique, clock_readings_are_ordered, epoch_day, every_second_is_shown,
    in_calendar, shanghai_time, shift_leaves_calendar, LocalTime, CALENDAR_LAST_SECOND,
    FIXED_UTC_PLUS_8_SECONDS,
};
use crate::config::RotationPolicy;
use crate::duration::{Duration, NANOS_PER_SECOND};
use crate::format::{reads, write_signed};
use crate::text::{
    decimal, decimal_is_unique, decimals_read_back, lemma_block_sorts, lemma_padded_len,
    lemma_padded_sorts, lemma_take_further, padded, padded_number_reads_back,
    padded_numbers_read_back, signed_numbers_read_back, signed_padded, signed_padded_is_unique,
    sorts_before, write_decimal, write_padded,
};

verus! {

/// One stretch of local time after which files are archived, counted from 1970.
#[derive(Debug, Clone, Copy, PartialEq, Eq, Structural)]
pub struct RotationPeriod(pub i128);

/// Why files could not be archived.
#[derive(Debug, Clone, Copy, PartialEq, Eq, Structural)]
pub enum RotationError {
    PeriodOutOfRange,
    TimestampOutOfRange,
    OutsideCalendar,
    TooManyArchives,
}

impl RotationError {
    /// What is said about the error.
    pub open spec fn text(self) -> Seq<char> {
        match self {
            RotationError::PeriodOutOfRange => "log rotation period is out of range"@,
            RotationError::TimestampOutOfRange => "log rotation timestamp is out of range"@,
            RotationError::OutsideCalendar => "timestamp was not in range"@,
            RotationError::TooManyArchives => "too many colliding log archives"@,
        }
    }

    /// What is said about the error.
    pub fn message(self) -> (r: String)
        ensures
            r@ == self.text(),
    {
        let text = match self {
            RotationError::PeriodOutOfRange => "log rotation period is out of range",
            RotationError::TimestampOutOfRange => "log rotation timestamp is out of range",
            RotationError::OutsideCalendar => "timestamp was not in range",
            RotationError::TooManyArchives => "too many colliding log archives",
        };
        text.to_owned()
    }
}

impl RotationPolicy {
    /// The length of a period in seconds.
    pub open spec fn period_seconds(self) -> Option<int> {
        match self {
            RotationPolicy::Never => None,
            RotationPolicy::Hourly => Some(3600),
            RotationPolicy::Daily => Some(86_400),
        }
    }

    /// The length of a period in nanoseconds.
    pub open spec fn period_length(self) -> Option<int> {
        match self {
            RotationPolicy::Never => None,
            RotationPolicy::Hourly => Some(3_600_000_000_000),
            RotationPolicy::Daily => Some(86_400_000_000_000),
        }
    }

    /// The length of a period in nanoseconds.
    pub fn period_nanos(self) -> (r: Option<i128>)
        ensures
            r is Some <==> !(self is Never),
            r matches Some(nanos) ==> Some(nanos as int) == self.period_length(),
            r matches Some(nanos) ==> nanos == self.period_seconds()->0 * NANOS_PER_SECOND,
    {
        match self {
            RotationPolicy::Never => None,
            RotationPolicy::Hourly => Some(60 * 60 * NANOS_PER_SECOND),
            RotationPolicy::Daily => Some(24 * 60 * 60 * NANOS_PER_SECOND),
        }
    }
}

/// Nanoseconds that the clock of the log shows since the start of 1970, for
/// nanoseconds since 1970 in UTC.
pub open spec fn local_nanos(unix_nanos: int) -> int {
    unix_nanos + FIXED_UTC_PLUS_8_SECONDS * NANOS_PER_SECOND
}

/// Whether the clock of the log can show a point in time.
pub open spec fn has_local_time(unix_nanos: i128) -> bool {
    local_nanos(unix_nanos as int) <= i128::MAX
}

/// Whether the clock of the log can show a point in time.
pub fn is_local_time(unix_nanos: i128) -> (r: bool)
    ensures
        r == has_local_time(unix_nanos),
{
    unix_nanos <= i128::MAX - FIXED_UTC_PLUS_8_SECONDS as i128 * NANOS_PER_SECOND
}

/// Nanoseconds that the clock of the log shows since the start of 1970.
pub fn local_unix_nanos(unix_nanos: i128) -> (r: i128)
    requires
        has_local_time(unix_nanos),
    ensures
        r == local_nanos(unix_nanos as int),
{
    unix_nanos + FIXED_UTC_PLUS_8_SECONDS as i128 * NANOS_PER_SECOND
}

/// The number of the period that a point in time lies in.
pub open spec fn period_at(policy: RotationPolicy, unix_nanos: int) -> int {
    local_nanos(unix_nanos) / policy.period_length()->0
}

/// The period that a point in time lies in, where files are archived at all.
pub fn rotation_period(policy: RotationPolicy, unix_nanos: i128) -> (r: Option<RotationPeriod>)
    requires
        has_local_time(unix_nanos),
    ensures
        r is Some <==> !(policy is Never),
        r matches Some(period) ==> period.0 == period_at(policy, unix_nanos as int),
{
    let nanos = policy.period_nanos()?;
    let shown = local_unix_nanos(unix_nanos);
    proof {
        assert(i128::MIN <= shown / 3_600_000_000_000i128 <= i128::MAX);
        assert(i128::MIN <= shown / 86_400_000_000_000i128 <= i128::MAX);
    }
    match shown.checked_div_euclid(nanos) {
        Some(number) => Some(RotationPeriod(number)),
        None => None,
    }
}

/// The first second of a period, in seconds since 1970.
pub open spec fn period_second(policy: RotationPolicy, period: int) -> int {
    period * policy.period_seconds()->0 - FIXED_UTC_PLUS_8_SECONDS
}

/// The time from a point in time to the start of the next period.
pub fn duration_until_next_period(policy: RotationPolicy, unix_nanos: i128) -> (r: Duration)
    requires
        !(policy is Never),
        has_local_time(unix_nanos),
    ensures
        r.wf(),
        unix_nanos + r.total_nanos() == period_second(
            policy,
            period_at(policy, unix_nanos as int) + 1,
        ) * NANOS_PER_SECOND,
        0 < r.total_nanos() <= policy.period_length()->0,
{
    let period: i128 = match policy.period_nanos() {
        Some(nanos) => nanos,
        None => 1,
    };
    let passed: i128 = match local_unix_nanos(unix_nanos).checked_rem_euclid(period) {
        Some(nanos) => nanos,
        None => 0,
    };
    let remaining: i128 = period - passed;
    proof {
        let shown = local_nanos(unix_nanos as int);
        if policy is Hourly {
            assert(shown == 3_600_000_000_000 * (shown / 3_600_000_000_000) + passed);
        } else {
            assert(shown == 86_400_000_000_000 * (shown / 86_400_000_000_000) + passed);
        }
    }
    Duration::new(
        (remaining / NANOS_PER_SECOND) as u64,
        (remaining % NANOS_PER_SECOND) as u32,
    )
}

/// Whether a period starts at a time that the calendar has in UTC and lacks on
/// the clock of the log.
pub open spec fn starts_past_calendar(policy: RotationPolicy, period: int) -> bool {
    shift_leaves_calendar(period_second(policy, period))
}

/// Why the archives of a period have no name.
pub open spec fn suffix_error(policy: RotationPolicy, period: int) -> Option<RotationError> {
    let second = period_second(policy, period);
    if !(i128::MIN <= second + FIXED_UTC_PLUS_8_SECONDS <= i128::MAX) {
        Some(RotationError::PeriodOutOfRange)
    } else if !(i64::MIN <= second <= i64::MAX) {
        Some(RotationError::TimestampOutOfRange)
    } else if !in_calendar(second) {
        Some(RotationError::OutsideCalendar)
    } else {
        None
    }
}

/// Year, month and day, and the hour where files are archived hourly.
pub open spec fn suffix_text(policy: RotationPolicy, local: LocalTime) -> Seq<char> {
    let date = signed_padded(local.year as int, 4) + padded(
        local.month as nat,
        2,
    ) + padded(local.day as nat, 2);
    if policy is Hourly {
        date + "-"@ + padded(local.hour as nat, 2)
    } else {
        date
    }
}

/// Whether a text names the archives of a period: it holds the date, and the
/// hour, that the clock shows when the period starts.
pub open spec fn names_period(policy: RotationPolicy, period: int, text: Seq<char>) -> bool {
    exists|local: LocalTime|
        {
            &&& local.wf()
            &&& #[trigger] local.clock_seconds() == period * policy.period_seconds()->0
            &&& text == suffix_text(policy, local)
        }
}

/// The text that names the archives of a period.
pub open spec fn suffix_of(policy: RotationPolicy, period: int) -> Seq<char> {
    choose|text: Seq<char>| names_period(policy, period, text)
}

/// Whether a period starts at a time that the calendar has in UTC and lacks on
/// the clock of the log.
pub fn is_past_calendar(policy: RotationPolicy, period: RotationPeriod) -> (r: bool)
    requires
        !(policy is Never),
    ensures
        r == starts_past_calendar(policy, period.0 as int),
{
    match checked_start(policy, period) {
        Some(local_start) => (CALENDAR_LAST_SECOND as i128) < local_start && local_start
            <= CALENDAR_LAST_SECOND as i128 + FIXED_UTC_PLUS_8_SECONDS as i128,
        None => false,
    }
}

/// What the clock of the log shows at the start of a period, in seconds.
fn checked_start(policy: RotationPolicy, period: RotationPeriod) -> (r: Option<i128>)
    requires
        !(policy is Never),
    ensures
        r is Some <==> i128::MIN <= period.0 * policy.period_seconds()->0 <= i128::MAX,
        r matches Some(start) ==> start == period.0 * policy.period_seconds()->0,
{
    let seconds: i128 = match policy.period_nanos() {
        Some(nanos) => nanos / NANOS_PER_SECOND,
        None => 1,
    };
    assert(seconds == policy.period_seconds()->0);
    period.0.checked_mul(seconds)
}

/// The text by which the archives of a period are told apart.
pub fn archive_suffix(policy: RotationPolicy, period: RotationPeriod) -> (r: Result<
    String,
    RotationError,
>)
    requires
        !(policy is Never),
        !starts_past_calendar(policy, period.0 as int),
    ensures
        match suffix_error(policy, period.0 as int) {
            Some(error) => r == Err::<String, RotationError>(error),
            None => r is Ok && names_period(policy, period.0 as int, r->Ok_0@),
        },
{
    let local_start = match checked_start(policy, period) {
        Some(local_start) => local_start,
        None => {
            return Err(RotationError::PeriodOutOfRange);
        },
    };
    let lead = FIXED_UTC_PLUS_8_SECONDS as i128;
    if local_start < i64::MIN as i128 + lead || local_start > i64::MAX as i128 + lead {
        return Err(RotationError::TimestampOutOfRange);
    }
    let local = match shanghai_time((local_start - lead) as i64) {
        Ok(local) => local,
        Err(_) => {
            return Err(RotationError::OutsideCalendar);
        },
    };
    let mut text = String::new();
    write_signed(&mut text, local.year);
    proof {
        assert(text@ =~= signed_padded(local.year as int, 4));
    }
    write_padded(&mut text, local.month as u32, 2);
    write_padded(&mut text, local.day as u32, 2);
    if let RotationPolicy::Hourly = policy {
        text.append("-");
        write_padded(&mut text, local.hour as u32, 2);
    }
    assert(text@ == suffix_text(policy, local));
    assert(local.clock_seconds() == period.0 * policy.period_seconds()->0);
    Ok(text)
}

/// Whether a file holds anything to archive.
pub fn is_worth_archiving(file_bytes: u64) -> (r: bool)
    ensures
        r == (file_bytes > 0),
{
    file_bytes > 0
}

/// The suffix under which to archive a file that is left from an earlier period,
/// if it is.
pub fn stale_suffix(
    policy: RotationPolicy,
    current_period: RotationPeriod,
    modified: i128,
) -> (r: Result<Option<String>, RotationError>)
    requires
        has_local_time(modified),
        !(policy is Never) && period_at(policy, modified as int) < current_period.0
            ==> !starts_past_calendar(policy, period_at(policy, modified as int)),
    ensures
        policy is Never || period_at(policy, modified as int) >= current_period.0 ==> r
            == Ok::<Option<String>, RotationError>(None),
        !(policy is Never) && period_at(policy, modified as int) < current_period.0 ==> {
            match suffix_error(policy, period_at(policy, modified as int)) {
                Some(error) => r == Err::<Option<String>, RotationError>(error),
                None => r matches Ok(Some(text)) && names_period(
                    policy,
                    period_at(policy, modified as int),
                    text@,
                ),
            }
        },
{
    let modified_period = match rotation_period(policy, modified) {
        Some(period) => period,
        None => {
            return Ok(None);
        },
    };
    if modified_period.0 < current_period.0 {
        match archive_suffix(policy, modified_period) {
            Ok(text) => Ok(Some(text)),
            Err(error) => Err(error),
        }
    } else {
        Ok(None)
    }
}

/// The period that files are written in, and when to look for the next one.
/// Points in time that are compared with the deadline are nanoseconds of a clock
/// that never goes back.
#[derive(Debug, Clone, Copy, PartialEq, Eq, Structural)]
pub struct RotationSchedule {
    pub policy: RotationPolicy,
    pub current_period: RotationPeriod,
    pub next_deadline: u128,
}

impl RotationSchedule {
    /// Files are archived at all.
    pub open spec fn wf(self) -> bool {
        !(self.policy is Never)
    }

    /// When the period of a point in time ends, by the clock that never goes back.
    pub open spec fn deadline_at(policy: RotationPolicy, unix_nanos: int, now: int) -> int {
        now + period_second(policy, period_at(policy, unix_nanos) + 1) * NANOS_PER_SECOND
            - unix_nanos
    }

    /// A schedule that starts in the period of a point in time.
    pub fn at(policy: RotationPolicy, unix_nanos: i128, now: u64) -> (r: Option<Self>)
        requires
            has_local_time(unix_nanos),
        ensures
            r is Some <==> !(policy is Never),
            r matches Some(schedule) ==> {
                &&& schedule.wf()
                &&& schedule.policy == policy
                &&& schedule.current_period.0 == period_at(policy, unix_nanos as int)
                &&& schedule.next_deadline == Self::deadline_at(
                    policy,
                    unix_nanos as int,
                    now as int,
                )
            },
    {
        let current_period = rotation_period(policy, unix_nanos)?;
        let wait = duration_until_next_period(policy, unix_nanos);
        Some(
            RotationSchedule {
                policy,
                current_period,
                next_deadline: now as u128 + wait.as_nanos(),
            },
        )
    }

    /// Whether it is time to look for the next period.
    pub fn is_due(&self, now: u64) -> (r: bool)
        ensures
            r == (now >= self.next_deadline),
    {
        now as u128 >= self.next_deadline
    }

    /// Whether a later period has begun.
    pub open spec fn rotates_at(self, unix_nanos: int) -> bool {
        period_at(self.policy, unix_nanos) > self.current_period.0
    }

    /// Whether a later period has begun.
    pub fn has_passed(&self, unix_nanos: i128) -> (r: bool)
        requires
            self.wf(),
            has_local_time(unix_nanos),
        ensures
            r == self.rotates_at(unix_nanos as int),
    {
        match rotation_period(self.policy, unix_nanos) {
            Some(observed) => observed.0 > self.current_period.0,
            None => false,
        }
    }

    /// The suffix under which to archive the files of the current period, where a
    /// later one has begun.
    pub fn plan(&self, unix_nanos: i128) -> (r: Result<Option<String>, RotationError>)
        requires
            self.wf(),
            has_local_time(unix_nanos),
            self.rotates_at(unix_nanos as int) ==> !starts_past_calendar(
                self.policy,
                self.current_period.0 as int,
            ),
        ensures
            !self.rotates_at(unix_nanos as int) ==> r == Ok::<Option<String>, RotationError>(None),
            self.rotates_at(unix_nanos as int) ==> {
                match suffix_error(self.policy, self.current_period.0 as int) {
                    Some(error) => r == Err::<Option<String>, RotationError>(error),
                    None => r matches Ok(Some(text)) && names_period(
                        self.policy,
                        self.current_period.0 as int,
                        text@,
                    ),
                }
            },
    {
        if !self.has_passed(unix_nanos) {
            return Ok(None);
        }
        match archive_suffix(self.policy, self.current_period) {
            Ok(text) => Ok(Some(text)),
            Err(error) => Err(error),
        }
    }

    /// The schedule once files have been archived as far as they had to be.
    pub open spec fn renewed(self, unix_nanos: int, now: int) -> Self {
        RotationSchedule {
            policy: self.policy,
            current_period: if self.rotates_at(unix_nanos) {
                RotationPeriod(period_at(self.policy, unix_nanos) as i128)
            } else {
                self.current_period
            },
            next_deadline: Self::deadline_at(self.policy, unix_nanos, now) as u128,
        }
    }

    /// Moves on to the period of a point in time, unless the current one is later.
    pub fn renew(&mut self, unix_nanos: i128, now: u64)
        requires
            old(self).wf(),
            has_local_time(unix_nanos),
        ensures
            final(self).wf(),
            *final(self) == old(self).renewed(unix_nanos as int, now as int),
    {
        if let Some(observed) = rotation_period(self.policy, unix_nanos) {
            if observed.0 > self.current_period.0 {
                self.current_period = observed;
            }
        }
        let wait = duration_until_next_period(self.policy, unix_nanos);
        self.next_deadline = now as u128 + wait.as_nanos();
    }
}

/// The name that a file is archived under when so many names were taken.
pub open spec fn archive_name(file_name: Seq<char>, suffix: Seq<char>, collisions: nat) -> Seq<
    char,
> {
    let base = file_name + "."@ + suffix;
    if collisions == 0 {
        base
    } else {
        base + "."@ + decimal(collisions)
    }
}

/// Whether `is_taken` can say of a name that it is taken, or that it is not.
pub open spec fn reported<F: Fn(&str) -> bool>(is_taken: F, name: Seq<char>, taken: bool) -> bool {
    exists|text: &str| text@ == name && #[trigger] call_ensures(is_taken, (text,), taken)
}

/// Whether `is_taken` can say of each of the first names for an archive that it is taken.
pub open spec fn all_reported<F: Fn(&str) -> bool>(
    is_taken: F,
    file_name: Seq<char>,
    suffix: Seq<char>,
    count: nat,
) -> bool {
    forall|i: nat|
        i < count ==> reported(is_taken, #[trigger] archive_name(file_name, suffix, i), true)
}

/// The first name that is free for an archive, where `is_taken` says which are not.
pub fn free_archive_name<F: Fn(&str) -> bool>(file_name: &str, suffix: &str, is_taken: F) -> (r:
    Result<String, RotationError>)
    requires
        forall|name: &str| #[trigger] call_requires(is_taken, (name,)),
    ensures
        match r {
            Ok(name) => exists|collisions: nat|
                {
                    &&& collisions <= u32::MAX
                    &&& name@ == #[trigger] archive_name(file_name@, suffix@, collisions)
                    &&& reported(is_taken, name@, false)
                    &&& all_reported(is_taken, file_name@, suffix@, collisions)
                },
            Err(error) => {
                &&& error == RotationError::TooManyArchives
                &&& all_reported(is_taken, file_name@, suffix@, (u32::MAX + 1) as nat)
            },
        },
{
    let mut base = String::new();
    base.append(file_name);
    base.append(".");
    base.append(suffix);
    let mut name = String::new();
    name.append(base.as_str());
    proof {
        assert(base@ =~= file_name@ + "."@ + suffix@);
        assert(name@ =~= archive_name(file_name@, suffix@, 0));
    }
    let mut collision: u32 = 0;
    while is_taken(name.as_str())
        invariant
            forall|name: &str| #[trigger] call_requires(is_taken, (name,)),
            base@ == file_name@ + "."@ + suffix@,
            name@ == archive_name(file_name@, suffix@, collision as nat),
            forall|i: nat|
                i < collision ==> reported(
                    is_taken,
                    #[trigger] archive_name(file_name@, suffix@, i),
                    true,
                ),
        decreases u32::MAX - collision,
    {
        assert(reported(is_taken, archive_name(file_name@, suffix@, collision as nat), true));
        collision = match collision.checked_add(1) {
            Some(next) => next,
            None => {
                return Err(RotationError::TooManyArchives);
            },
        };
        name = String::new();
        name.append(base.as_str());
        name.append(".");
        write_decimal(&mut name, collision);
        assert(name@ =~= archive_name(file_name@, suffix@, collision as nat));
    }
    assert(reported(is_taken, name@, false));
    Ok(name)
}

/// A schedule that is renewed at a point in time is in the later of its old period and
/// the one that the point lies in, so that the files are not archived again there; its
/// deadline falls on the start of the next period. For every policy, the next files to
/// be archived are named after that period.
pub proof fn renewed_schedules_are_current(schedule: RotationSchedule, unix_nanos: i128, now: u64)
    requires
        schedule.wf(),
        has_local_time(unix_nanos),
    ensures
        ({
            let renewed = schedule.renewed(unix_nanos as int, now as int);
            let here = period_at(schedule.policy, unix_nanos as int);
            &&& renewed.policy == schedule.policy
            &&& renewed.current_period.0 >= here
            &&& renewed.current_period.0 >= schedule.current_period.0
            &&& renewed.current_period.0 == here || renewed.current_period
                == schedule.current_period
            &&& !renewed.rotates_at(unix_nanos as int)
            &&& renewed.next_deadline - now == period_second(schedule.policy, here + 1)
                * NANOS_PER_SECOND - unix_nanos
            &&& now < renewed.next_deadline
        }),
{
    let here = period_at(schedule.policy, unix_nanos as int);
    period_lies_between_its_boundaries(schedule.policy, unix_nanos as int, here);
    let shown = local_nanos(unix_nanos as int);
    if schedule.policy is Hourly {
        assert(i128::MIN <= shown / 3_600_000_000_000 <= i128::MAX);
    } else {
        assert(i128::MIN <= shown / 86_400_000_000_000 <= i128::MAX);
    }
}

/// A point in time lies in the period that starts last before it or at it.
pub proof fn period_lies_between_its_boundaries(policy: RotationPolicy, unix_nanos: int, period: int)
    requires
        !(policy is Never),
    ensures
        period_at(policy, unix_nanos) == period <==> period_second(policy, period)
            * NANOS_PER_SECOND <= unix_nanos < period_second(policy, period + 1) * NANOS_PER_SECOND,
{
    let shown = local_nanos(unix_nanos);
    assert(shown == 3_600_000_000_000 * (shown / 3_600_000_000_000) + shown % 3_600_000_000_000);
    assert(shown == 86_400_000_000_000 * (shown / 86_400_000_000_000) + shown % 86_400_000_000_000);
}

/// Periods never go back as time goes on.
pub proof fn periods_follow_time(policy: RotationPolicy, earlier: int, later: int)
    requires
        !(policy is Never),
        earlier <= later,
    ensures
        period_at(policy, earlier) <= period_at(policy, later),
{
    period_lies_between_its_boundaries(policy, earlier, period_at(policy, earlier));
    period_lies_between_its_boundaries(policy, later, period_at(policy, later));
}

/// A deadline falls on the very start of the next period: until then the period
/// is the same, and from then on it is not.
pub proof fn deadlines_fall_on_boundaries(
    policy: RotationPolicy,
    unix_nanos: int,
    now: int,
    elapsed: int,
)
    requires
        !(policy is Never),
        0 <= elapsed,
    ensures
        now + elapsed < RotationSchedule::deadline_at(policy, unix_nanos, now) <==> period_at(
            policy,
            unix_nanos + elapsed,
        ) == period_at(policy, unix_nanos),
        now + elapsed == RotationSchedule::deadline_at(policy, unix_nanos, now) ==> period_at(
            policy,
            unix_nanos + elapsed,
        ) == period_at(policy, unix_nanos) + 1,
{
    let period = period_at(policy, unix_nanos);
    period_lies_between_its_boundaries(policy, unix_nanos, period);
    period_lies_between_its_boundaries(policy, unix_nanos + elapsed, period);
    period_lies_between_its_boundaries(policy, unix_nanos + elapsed, period + 1);
}

proof fn lemma_same_date(policy: RotationPolicy, left: LocalTime, right: LocalTime)
    requires
        left.wf(),
        right.wf(),
        suffix_text(policy, left) == suffix_text(policy, right),
    ensures
        left.year == right.year,
        left.month == right.month,
        left.day == right.day,
        policy is Hourly ==> left.hour == right.hour,
{
    lemma_suffix_parts(policy, left);
    lemma_suffix_parts(policy, right);
    signed_padded_is_unique(left.year as int, right.year as int, 4);
    padded_number_reads_back(left.month as nat, 2);
    padded_number_reads_back(right.month as nat, 2);
    padded_number_reads_back(left.day as nat, 2);
    padded_number_reads_back(right.day as nat, 2);
    padded_number_reads_back(left.hour as nat, 2);
    padded_number_reads_back(right.hour as nat, 2);
}

proof fn lemma_suffix_parts(policy: RotationPolicy, local: LocalTime)
    requires
        local.wf(),
    ensures
        ({
            let text = suffix_text(policy, local);
            let end: int = if policy is Hourly {
                text.len() - 3
            } else {
                text.len() as int
            };
            &&& end >= 4
            &&& text.take(end - 4) == signed_padded(local.year as int, 4)
            &&& text.subrange(end - 4, end - 2) == padded(local.month as nat, 2)
            &&& text.subrange(end - 2, end) == padded(local.day as nat, 2)
            &&& policy is Hourly ==> text.skip(end + 1) == padded(local.hour as nat, 2)
        }),
{
    lemma_padded_len(local.month as nat, 2);
    lemma_padded_len(local.day as nat, 2);
    lemma_padded_len(local.hour as nat, 2);
    reveal_strlit("-");
    let text = suffix_text(policy, local);
    let end: int = if policy is Hourly {
        text.len() - 3
    } else {
        text.len() as int
    };
    assert(text.take(end - 4) =~= signed_padded(local.year as int, 4));
    assert(text.subrange(end - 4, end - 2) =~= padded(local.month as nat, 2));
    assert(text.subrange(end - 2, end) =~= padded(local.day as nat, 2));
    if policy is Hourly {
        assert(text.skip(end + 1) =~= padded(local.hour as nat, 2));
    }
}

/// Archives of different periods are told apart by their suffixes.
pub proof fn suffixes_tell_periods_apart(
    policy: RotationPolicy,
    left: int,
    right: int,
    text: Seq<char>,
)
    requires
        !(policy is Never),
        names_period(policy, left, text),
        names_period(policy, right, text),
    ensures
        left == right,
{
    let seconds = policy.period_seconds()->0;
    let a = choose|local: LocalTime|
        {
            &&& local.wf()
            &&& #[trigger] local.clock_seconds() == left * seconds
            &&& text == suffix_text(policy, local)
        };
    let b = choose|local: LocalTime|
        {
            &&& local.wf()
            &&& #[trigger] local.clock_seconds() == right * seconds
            &&& text == suffix_text(policy, local)
        };
    lemma_same_date(policy, a, b);
    lemma_aligned(policy, a, left);
    lemma_aligned(policy, b, right);
}

proof fn lemma_aligned(policy: RotationPolicy, local: LocalTime, period: int)
    requires
        !(policy is Never),
        local.wf(),
        local.clock_seconds() == period * policy.period_seconds()->0,
    ensures
        local.minute == 0,
        local.second == 0,
        policy is Daily ==> local.hour == 0,
{
    let day = epoch_day(local.year as int, local.month as int, local.day as int);
    let (hour, minute, second) = (local.hour as int, local.minute as int, local.second as int);
    if policy is Hourly {
        lemma_whole_hours(day, hour, minute, second, period);
    } else {
        lemma_whole_days(day, hour, minute, second, period);
    }
}

proof fn lemma_whole_hours(day: int, hour: int, minute: int, second: int, period: int)
    requires
        0 <= minute < 60,
        0 <= second < 60,
        day * 86_400 + hour * 3600 + minute * 60 + second == period * 3600,
    ensures
        minute == 0,
        second == 0,
{
    let hours = period - 24 * day - hour;
    assert(minute * 60 + second == 3600 * hours);
    assert(0 <= 3600 * hours < 3600);
    assert(hours == 0);
}

proof fn lemma_whole_days(day: int, hour: int, minute: int, second: int, period: int)
    requires
        0 <= hour < 24,
        0 <= minute < 60,
        0 <= second < 60,
        day * 86_400 + hour * 3600 + minute * 60 + second == period * 86_400,
    ensures
        hour == 0,
        minute == 0,
        second == 0,
{
    let days = period - day;
    assert(hour * 3600 + minute * 60 + second == 86_400 * days);
    assert(0 <= 86_400 * days < 86_400);
    assert(days == 0);
}

proof fn lemma_suffix_blocks(policy: RotationPolicy, local: LocalTime)
    requires
        local.wf(),
        local.year >= 0,
    ensures
        ({
            let text = suffix_text(policy, local);
            &&& text.len() == if policy is Hourly {
                11nat
            } else {
                8nat
            }
            &&& text.subrange(0, 4) == padded(local.year as nat, 4)
            &&& text.subrange(4, 6) == padded(local.month as nat, 2)
            &&& text.subrange(6, 8) == padded(local.day as nat, 2)
            &&& policy is Hourly ==> text.subrange(8, 9) == "-"@
            &&& policy is Hourly ==> text.subrange(9, 11) == padded(local.hour as nat, 2)
        }),
        padded(local.year as nat, 4).len() == 4,
        padded(local.month as nat, 2).len() == 2,
        padded(local.day as nat, 2).len() == 2,
        padded(local.hour as nat, 2).len() == 2,
{
    lemma_padded_len(local.year as nat, 4);
    lemma_padded_len(local.month as nat, 2);
    lemma_padded_len(local.day as nat, 2);
    lemma_padded_len(local.hour as nat, 2);
    reveal_strlit("-");
    let text = suffix_text(policy, local);
    assert(text.subrange(0, 4) =~= padded(local.year as nat, 4));
    assert(text.subrange(4, 6) =~= padded(local.month as nat, 2));
    assert(text.subrange(6, 8) =~= padded(local.day as nat, 2));
    if policy is Hourly {
        assert(text.subrange(8, 9) =~= "-"@);
        assert(text.subrange(9, 11) =~= padded(local.hour as nat, 2));
    }
}

/// Suffixes of our era sort as their periods. The first of January of year 0 is
/// 719528 days before 1970.
pub proof fn suffixes_sort_as_periods(
    policy: RotationPolicy,
    earlier: int,
    later: int,
    first: Seq<char>,
    second: Seq<char>,
)
    requires
        !(policy is Never),
        earlier < later,
        -719_528 * 86_400 <= earlier * policy.period_seconds()->0,
        names_period(policy, earlier, first),
        names_period(policy, later, second),
    ensures
        sorts_before(first, second),
{
    let seconds = policy.period_seconds()->0;
    let a = choose|local: LocalTime|
        {
            &&& local.wf()
            &&& #[trigger] local.clock_seconds() == earlier * seconds
            &&& first == suffix_text(policy, local)
        };
    let b = choose|local: LocalTime|
        {
            &&& local.wf()
            &&& #[trigger] local.clock_seconds() == later * seconds
            &&& second == suffix_text(policy, local)
        };
    assert(a.clock_seconds() < b.clock_seconds()) by {
        assert(earlier * seconds < later * seconds) by (nonlinear_arith)
            requires
                earlier < later,
                seconds > 0,
        ;
    }
    lemma_our_era(a);
    lemma_our_era(b);
    clock_readings_are_ordered(a, b);
    lemma_aligned(policy, a, earlier);
    lemma_aligned(policy, b, later);
    lemma_suffixes_sort(policy, a, b);
}

proof fn lemma_our_era(local: LocalTime)
    requires
        local.wf(),
        local.clock_seconds() >= -719_528 * 86_400,
    ensures
        local.year >= 0,
{
    let start = LocalTime { year: 0, month: 1, day: 1, hour: 0, minute: 0, second: 0 };
    assert(epoch_day(0, 1, 1) == -719_528);
    clock_readings_are_ordered(local, start);
}

proof fn lemma_suffixes_sort(policy: RotationPolicy, left: LocalTime, right: LocalTime)
    requires
        !(policy is Never),
        left.wf(),
        right.wf(),
        left.year >= 0,
        right.year >= 0,
        left.comes_before(right),
        left.minute == right.minute,
        left.second == right.second,
        policy is Daily ==> left.hour == right.hour,
    ensures
        sorts_before(suffix_text(policy, left), suffix_text(policy, right)),
{
    let (a, b) = (suffix_text(policy, left), suffix_text(policy, right));
    lemma_suffix_blocks(policy, left);
    lemma_suffix_blocks(policy, right);
    assert(a.take(0) =~= b.take(0));
    if left.year != right.year {
        lemma_padded_sorts(left.year as nat, right.year as nat, 4);
        lemma_block_sorts(a, b, 0, 4);
    } else {
        lemma_take_further(a, b, 0, 4);
        if left.month != right.month {
            lemma_padded_sorts(left.month as nat, right.month as nat, 2);
            lemma_block_sorts(a, b, 4, 6);
        } else {
            lemma_take_further(a, b, 4, 6);
            if left.day != right.day {
                lemma_padded_sorts(left.day as nat, right.day as nat, 2);
                lemma_block_sorts(a, b, 6, 8);
            } else {
                lemma_take_further(a, b, 6, 8);
                lemma_take_further(a, b, 8, 9);
                lemma_padded_sorts(left.hour as nat, right.hour as nat, 2);
                lemma_block_sorts(a, b, 9, 11);
            }
        }
    }
}

/// A period has one suffix.
pub proof fn periods_have_one_suffix(
    policy: RotationPolicy,
    period: int,
    left: Seq<char>,
    right: Seq<char>,
)
    requires
        names_period(policy, period, left),
        names_period(policy, period, right),
    ensures
        left == right,
{
    let seconds = policy.period_seconds()->0;
    let a = choose|local: LocalTime|
        {
            &&& local.wf()
            &&& #[trigger] local.clock_seconds() == period * seconds
            &&& left == suffix_text(policy, local)
        };
    let b = choose|local: LocalTime|
        {
            &&& local.wf()
            &&& #[trigger] local.clock_seconds() == period * seconds
            &&& right == suffix_text(policy, local)
        };
    clock_reading_is_unique(a, b);
}

/// Every name tried for an archive is a new one.
pub proof fn archive_names_differ(file_name: Seq<char>, suffix: Seq<char>, left: nat, right: nat)
    requires
        archive_name(file_name, suffix, left) == archive_name(file_name, suffix, right),
    ensures
        left == right,
{
    let start = file_name + "."@ + suffix + "."@;
    reveal_strlit(".");
    if left > 0 {
        assert(archive_name(file_name, suffix, left).skip(start.len() as int) =~= decimal(left));
    }
    if right > 0 {
        assert(archive_name(file_name, suffix, right).skip(start.len() as int) =~= decimal(right));
    }
    if left > 0 && right > 0 {
        decimal_is_unique(left, right);
    }
}

/// Periods follow each other without a gap, an hour or a day long, and start on the
/// full hour, and at midnight, of the clock that is eight hours ahead of UTC.
pub proof fn periods_are_hours_and_days(period: int)
    ensures
        RotationPolicy::Never.period_seconds() is None,
        period_second(RotationPolicy::Hourly, 0) == -8 * 3600,
        period_second(RotationPolicy::Daily, 0) == -8 * 3600,
        period_second(RotationPolicy::Hourly, period + 1) == period_second(
            RotationPolicy::Hourly,
            period,
        ) + 3600,
        (period_second(RotationPolicy::Hourly, period) + 8 * 3600) % 3600 == 0,
        period_second(RotationPolicy::Daily, period + 1) == period_second(
            RotationPolicy::Daily,
            period,
        ) + 24 * 3600,
        (period_second(RotationPolicy::Daily, period) + 8 * 3600) % 86_400 == 0,
{
}

/// The clock of the log is eight hours ahead of UTC.
pub proof fn the_clock_is_eight_hours_ahead(unix_nanos: i128)
    ensures
        local_nanos(unix_nanos as int) - unix_nanos == 28_800_000_000_000,
        has_local_time(unix_nanos) <==> unix_nanos + 28_800_000_000_000 <= i128::MAX,
{
}

/// The archives of a period have a name exactly where the period starts in the
/// calendar; else it is said which range the start is outside of.
pub proof fn periods_in_the_calendar_have_a_name(policy: RotationPolicy, period: int)
    requires
        !(policy is Never),
    ensures
        ({
            let start = period_second(policy, period);
            let error = suffix_error(policy, period);
            &&& error is None <==> -377_705_116_800 <= start <= 253_402_300_799
            &&& error == Some(RotationError::OutsideCalendar) <==> i64::MIN <= start <= i64::MAX
                && !(-377_705_116_800 <= start <= 253_402_300_799)
            &&& error == Some(RotationError::TimestampOutOfRange) <==> !(i64::MIN <= start
                <= i64::MAX) && i128::MIN <= start + 28_800 <= i128::MAX
            &&& error == Some(RotationError::PeriodOutOfRange) <==> !(i128::MIN <= start + 28_800
                <= i128::MAX)
            &&& starts_past_calendar(policy, period) <==> 253_402_300_799 - 28_800 < start
                <= 253_402_300_799
            &&& error is None && !starts_past_calendar(policy, period) ==> exists|text: Seq<char>|
                names_period(policy, period, text)
        }),
{
    let start = period_second(policy, period);
    if suffix_error(policy, period) is None && !starts_past_calendar(policy, period) {
        every_second_is_shown(start + 28_800);
        let local = choose|local: LocalTime|
            local.wf() && #[trigger] local.clock_seconds() == start + 28_800;
        assert(names_period(policy, period, suffix_text(policy, local)));
    }
}

/// The suffix of a period can be read back: its numbers are the year, the month and
/// the day, and behind a dash the hour for hourly archives, that the clock eight hours
/// ahead of UTC shows when the period starts.
pub proof fn suffixes_read_back(policy: RotationPolicy, period: int, text: Seq<char>)
    requires
        !(policy is Never),
        names_period(policy, period, text),
    ensures
        exists|local: LocalTime|
            {
                &&& local.wf()
                &&& #[trigger] local.clock_seconds() == period_second(policy, period) + 8 * 3600
                &&& suffix_shows(policy, text, local)
            },
        forall|local: LocalTime|
            local.wf() && #[trigger] local.clock_seconds() == period_second(policy, period) + 8
                * 3600 ==> suffix_shows(policy, text, local),
{
    let seconds = policy.period_seconds()->0;
    let shown = choose|local: LocalTime|
        {
            &&& local.wf()
            &&& #[trigger] local.clock_seconds() == period * seconds
            &&& text == suffix_text(policy, local)
        };
    lemma_suffix_shows(policy, shown);
    assert(shown.clock_seconds() == period_second(policy, period) + 8 * 3600);
    assert forall|local: LocalTime|
        local.wf() && #[trigger] local.clock_seconds() == period_second(policy, period) + 8
            * 3600 implies suffix_shows(policy, text, local) by {
        clock_reading_is_unique(local, shown);
    }
}

/// Whether the numbers of a suffix are those of a date, and of an hour where there is
/// one.
pub open spec fn suffix_shows(policy: RotationPolicy, text: Seq<char>, local: LocalTime) -> bool {
    let end: int = if policy is Hourly {
        text.len() - 3
    } else {
        text.len() as int
    };
    let year = text.take(end - 4);
    &&& end >= 8
    &&& local.year >= 0 ==> end == 8 && reads(year, local.year as int)
    &&& local.year < 0 ==> year[0] == '-' && reads(year.skip(1), -local.year) && (end == 8
        || year[1] != '0')
    &&& reads(text.subrange(end - 4, end - 2), local.month as int)
    &&& reads(text.subrange(end - 2, end), local.day as int)
    &&& policy is Hourly ==> text[end] == '-' && reads(text.skip(end + 1), local.hour as int)
}

proof fn lemma_suffix_shows(policy: RotationPolicy, local: LocalTime)
    requires
        local.wf(),
    ensures
        suffix_shows(policy, suffix_text(policy, local), local),
{
    lemma_suffix_parts(policy, local);
    signed_numbers_read_back(local.year as int, 4);
    if local.year >= 0 {
        lemma_padded_len(local.year as nat, 4);
    } else {
        decimals_read_back((-local.year) as nat);
    }
    padded_numbers_read_back(local.month as nat, 2);
    padded_numbers_read_back(local.day as nat, 2);
    padded_numbers_read_back(local.hour as nat, 2);
    if policy is Hourly {
        lemma_padded_len(local.hour as nat, 2);
        reveal_strlit("-");
        assert(suffix_text(policy, local)[suffix_text(policy, local).len() - 3] == '-');
    }
}

/// The period of a point in time starts at it or before it, and the next one behind it.
pub proof fn rotation_periods_hold_their_time(
    policy: RotationPolicy,
    unix_nanos: i128,
    period: Option<RotationPeriod>,
)
    requires
        has_local_time(unix_nanos),
        call_ensures(rotation_period, (policy, unix_nanos), period),
    ensures
        period is None <==> policy is Never,
        period matches Some(RotationPeriod(number)) ==> period_second(policy, number as int)
            * NANOS_PER_SECOND <= unix_nanos < period_second(policy, number + 1)
            * NANOS_PER_SECOND,
{
    if let Some(RotationPeriod(number)) = period {
        period_lies_between_its_boundaries(policy, unix_nanos as int, number as int);
    }
}

/// The wait for the next period ends exactly when that begins: it does not end while
/// the period is the same, and not later than that.
pub proof fn waits_end_with_the_period(
    policy: RotationPolicy,
    unix_nanos: i128,
    wait: Duration,
    elapsed: int,
)
    requires
        !(policy is Never),
        has_local_time(unix_nanos),
        call_ensures(duration_until_next_period, (policy, unix_nanos), wait),
        0 <= elapsed,
    ensures
        elapsed < wait.secs * 1_000_000_000 + wait.nanos <==> period_at(policy, unix_nanos + elapsed)
            == period_at(policy, unix_nanos as int),
        wait.nanos < 1_000_000_000,
{
    deadlines_fall_on_boundaries(policy, unix_nanos as int, 0, elapsed);
}

/// A schedule starts in the period of its point in time, and is due when that ends.
pub proof fn schedules_start_in_their_period(
    policy: RotationPolicy,
    unix_nanos: i128,
    now: u64,
    schedule: Option<RotationSchedule>,
    elapsed: int,
)
    requires
        has_local_time(unix_nanos),
        call_ensures(RotationSchedule::at, (policy, unix_nanos, now), schedule),
        0 <= elapsed,
    ensures
        schedule is None <==> policy is Never,
        schedule is Some ==> {
            &&& schedule->0.policy == policy
            &&& schedule->0.current_period.0 == period_at(policy, unix_nanos as int)
            &&& now + elapsed >= schedule->0.next_deadline <==> period_at(
                policy,
                unix_nanos + elapsed,
            ) > schedule->0.current_period.0
        },
{
    if schedule is Some {
        deadlines_fall_on_boundaries(policy, unix_nanos as int, now as int, elapsed);
        periods_follow_time(policy, unix_nanos as int, unix_nanos + elapsed);
    }
}

/// Files are archived exactly where the period that they were written in is over, and
/// under the date of that period; so are those that were left from an earlier period.
pub proof fn archives_are_dated_by_the_period_that_is_over(
    schedule: RotationSchedule,
    unix_nanos: i128,
    planned: Result<Option<String>, RotationError>,
)
    requires
        schedule.wf(),
        has_local_time(unix_nanos),
        schedule.rotates_at(unix_nanos as int) ==> !starts_past_calendar(
            schedule.policy,
            schedule.current_period.0 as int,
        ),
        call_ensures(RotationSchedule::plan, (&schedule, unix_nanos), planned),
    ensures
        ({
            let end = period_second(schedule.policy, schedule.current_period.0 + 1)
                * NANOS_PER_SECOND;
            let start = period_second(schedule.policy, schedule.current_period.0 as int);
            &&& unix_nanos < end <==> planned == Ok::<Option<String>, RotationError>(None)
            &&& unix_nanos >= end && -377_705_116_800 <= start <= 253_402_300_799 ==> {
                &&& planned matches Ok(Some(text))
                &&& forall|local: LocalTime|
                    local.wf() && #[trigger] local.clock_seconds() == start + 8 * 3600
                        ==> suffix_shows(schedule.policy, planned->Ok_0->0@, local)
            }
            &&& unix_nanos >= end && !(-377_705_116_800 <= start <= 253_402_300_799) ==> planned is Err
        }),
{
    let period = schedule.current_period.0 as int;
    let here = period_at(schedule.policy, unix_nanos as int);
    period_lies_between_its_boundaries(schedule.policy, unix_nanos as int, here);
    lemma_boundaries_ordered(schedule.policy, period + 1, here);
    lemma_boundaries_ordered(schedule.policy, here + 1, period + 1);
    periods_in_the_calendar_have_a_name(schedule.policy, period);
    if planned matches Ok(Some(text)) && names_period(schedule.policy, period, text@) {
        suffixes_read_back(schedule.policy, period, planned->Ok_0->0@);
    }
}

proof fn lemma_boundaries_ordered(policy: RotationPolicy, earlier: int, later: int)
    requires
        !(policy is Never),
    ensures
        earlier <= later ==> period_second(policy, earlier) * NANOS_PER_SECOND <= period_second(
            policy,
            later,
        ) * NANOS_PER_SECOND,
{
}

/// A file is archived at the start exactly where it was last written in an earlier
/// period, and under the date of that period.
pub proof fn files_left_over_are_dated_by_their_period(
    policy: RotationPolicy,
    current_period: RotationPeriod,
    modified: i128,
    planned: Result<Option<String>, RotationError>,
)
    requires
        has_local_time(modified),
        !(policy is Never) && period_at(policy, modified as int) < current_period.0
            ==> !starts_past_calendar(policy, period_at(policy, modified as int)),
        call_ensures(stale_suffix, (policy, current_period, modified), planned),
    ensures
        ({
            let here = period_at(policy, modified as int);
            let stale = !(policy is Never) && modified < period_second(
                policy,
                current_period.0 as int,
            ) * NANOS_PER_SECOND;
            let start = period_second(policy, here);
            &&& !stale <==> planned == Ok::<Option<String>, RotationError>(None)
            &&& stale && -377_705_116_800 <= start <= 253_402_300_799 ==> {
                &&& planned matches Ok(Some(text))
                &&& forall|local: LocalTime|
                    local.wf() && #[trigger] local.clock_seconds() == start + 8 * 3600
                        ==> suffix_shows(policy, planned->Ok_0->0@, local)
            }
            &&& stale && !(-377_705_116_800 <= start <= 253_402_300_799) ==> planned is Err
        }),
{
    if !(policy is Never) {
        let here = period_at(policy, modified as int);
        period_lies_between_its_boundaries(policy, modified as int, here);
        lemma_boundaries_ordered(policy, here + 1, current_period.0 as int);
        lemma_boundaries_ordered(policy, current_period.0 as int, here);
        periods_in_the_calendar_have_a_name(policy, here);
        if planned matches Ok(Some(text)) && names_period(policy, here, text@) {
            suffixes_read_back(policy, here, planned->Ok_0->0@);
        }
    }
}

/// The name of an archive starts with the name of the file and the suffix. Where names
/// were taken, their count stands behind.
pub proof fn archive_names_read_back(file_name: Seq<char>, suffix: Seq<char>, collisions: nat)
    ensures
        ({
            let name = archive_name(file_name, suffix, collisions);
            let base = (file_name.len() + 1 + suffix.len()) as int;
            &&& name.len() >= base
            &&& name.take(file_name.len() as int) == file_name
            &&& name[file_name.len() as int] == '.'
            &&& name.subrange((file_name.len() + 1) as int, base) == suffix
            &&& collisions == 0 <==> name.len() == base
            &&& collisions > 0 ==> name[base] == '.' && reads(
                name.skip(base + 1),
                collisions as int,
            ) && name[base + 1] != '0'
        }),
{
    reveal_strlit(".");
    decimals_read_back(collisions);
    let name = archive_name(file_name, suffix, collisions);
    let base = (file_name.len() + 1 + suffix.len()) as int;
    assert(name.take(file_name.len() as int) =~= file_name);
    assert(name.subrange((file_name.len() + 1) as int, base) =~= suffix);
    if collisions > 0 {
        assert(name.skip(base + 1) =~= decimal(collisions));
        assert(name[base + 1] == decimal(collisions)[0]);
    }
}

/// Renewing a schedule moves it to the later of its old period and the one that the
/// point in time lies in, for every policy.
pub proof fn renewing_moves_to_the_later_period(unix_nanos: i128, now: u64)
    requires
        has_local_time(unix_nanos),
    ensures
        forall|changing: &mut RotationSchedule| #[trigger]
            call_ensures(RotationSchedule::renew, (changing, unix_nanos, now), ()) && (
            *changing).wf() ==> {
                let before = *changing;
                let after = *final(changing);
                let here = period_at(before.policy, unix_nanos as int);
                &&& after.policy == before.policy
                &&& after.current_period.0 == if here > before.current_period.0 {
                    here
                } else {
                    before.current_period.0 as int
                }
                &&& after.next_deadline - now + unix_nanos == period_second(before.policy, here + 1)
                    * 1_000_000_000
            },
{
    assert forall|changing: &mut RotationSchedule| #[trigger]
        call_ensures(RotationSchedule::renew, (changing, unix_nanos, now), ()) && (
        *changing).wf() implies {
        let before = *changing;
        let after = *final(changing);
        let here = period_at(before.policy, unix_nanos as int);
        &&& after.policy == before.policy
        &&& after.current_period.0 == if here > before.current_period.0 {
            here
        } else {
            before.current_period.0 as int
        }
        &&& after.next_deadline - now + unix_nanos == period_second(before.policy, here + 1)
            * 1_000_000_000
    } by {
        renewed_schedules_are_current(*changing, unix_nanos, now);
    }
}

/// A schedule is due from its deadline on, and its period is over from the start of the
/// next one on.
pub proof fn schedules_do_what_is_said_of_them(
    schedule: RotationSchedule,
    now: u64,
    unix_nanos: i128,
    due: bool,
    passed: bool,
)
    requires
        schedule.wf(),
        has_local_time(unix_nanos),
        call_ensures(RotationSchedule::is_due, (&schedule, now), due),
        call_ensures(RotationSchedule::has_passed, (&schedule, unix_nanos), passed),
    ensures
        due <==> now >= schedule.next_deadline,
        passed <==> unix_nanos >= period_second(
            schedule.policy,
            schedule.current_period.0 + 1,
        ) * NANOS_PER_SECOND,
{
    let period = schedule.current_period.0 as int;
    let here = period_at(schedule.policy, unix_nanos as int);
    period_lies_between_its_boundaries(schedule.policy, unix_nanos as int, here);
    lemma_boundaries_ordered(schedule.policy, period + 1, here);
    lemma_boundaries_ordered(schedule.policy, here + 1, period + 1);
}

/// Only files that hold something are archived.
pub proof fn empty_files_are_not_archived(file_bytes: u64, worth: bool)
    requires
        call_ensures(is_worth_archiving, (file_bytes,), worth),
    ensures
        worth <==> file_bytes != 0,
{
}

/// The suffix of a period shows the date on which it starts, eight hours ahead of UTC; a
/// period that starts outside the calendar has none.
pub proof fn suffixes_show_the_start_of_the_period(
    policy: RotationPolicy,
    period: RotationPeriod,
    suffix: Result<String, RotationError>,
)
    requires
        !(policy is Never),
        !starts_past_calendar(policy, period.0 as int),
        call_ensures(archive_suffix, (policy, period), suffix),
    ensures
        ({
            let start = period_second(policy, period.0 as int);
            &&& suffix is Ok <==> -377_705_116_800 <= start <= 253_402_300_799
            &&& suffix matches Ok(text) ==> forall|local: LocalTime|
                local.wf() && #[trigger] local.clock_seconds() == start + 8 * 3600 ==> suffix_shows(
                    policy,
                    text@,
                    local,
                )
            &&& suffix matches Err(error) ==> Some(error) == suffix_error(policy, period.0 as int)
        }),
{
    periods_in_the_calendar_have_a_name(policy, period.0 as int);
    if let Ok(text) = suffix {
        suffixes_read_back(policy, period.0 as int, text@);
    }
}

/// The archive of a file gets the first of its names that is not taken: the one without
/// a number, or else that with the smallest.
pub proof fn archives_take_the_first_free_name<F: Fn(&str) -> bool>(
    file_name: &str,
    suffix: &str,
    is_taken: F,
    name: Result<String, RotationError>,
)
    requires
        forall|text: &str| #[trigger] call_requires(is_taken, (text,)),
        call_ensures(free_archive_name::<F>, (file_name, suffix, is_taken), name),
    ensures
        name matches Ok(text) ==> {
            &&& reported(is_taken, text@, false)
            &&& exists|count: nat|
                text@ == #[trigger] archive_name(file_name@, suffix@, count) && forall|i: nat|
                    i < count ==> reported(
                        is_taken,
                        #[trigger] archive_name(file_name@, suffix@, i),
                        true,
                    )
        },
        name matches Err(error) ==> {
            &&& error == RotationError::TooManyArchives
            &&& forall|i: nat|
                i <= 4_294_967_295 ==> reported(
                    is_taken,
                    #[trigger] archive_name(file_name@, suffix@, i),
                    true,
                )
        },
{
    if name is Err {
        assert(all_reported(is_taken, file_name@, suffix@, (u32::MAX + 1) as nat));
    }
}

/// The clock of the log can show whatever lies eight hours before the end of its range,
/// and shows it eight hours ahead of UTC.
pub proof fn clocks_do_what_is_said_of_them(unix_nanos: i128, can_be_shown: bool, shown: i128)
    requires
        call_ensures(is_local_time, (unix_nanos,), can_be_shown),
        can_be_shown,
        call_ensures(local_unix_nanos, (unix_nanos,), shown),
    ensures
        shown == unix_nanos + 28_800_000_000_000,
{
}

/// An hour and a day have their nanoseconds, and it is told of a period exactly where
/// it starts in the last eight hours of the calendar.
pub proof fn periods_do_what_is_said_of_them(
    policy: RotationPolicy,
    period: RotationPeriod,
    length: Option<i128>,
    past: bool,
)
    requires
        !(policy is Never),
        call_ensures(RotationPolicy::period_nanos, (policy,), length),
        call_ensures(is_past_calendar, (policy, period), past),
    ensures
        policy is Hourly ==> length == Some(3_600_000_000_000i128),
        policy is Daily ==> length == Some(86_400_000_000_000i128),
        policy is Hourly ==> (past <==> 253_402_300_799 < 3600 * period.0 <= 253_402_300_799
            + 28_800),
        policy is Daily ==> (past <==> 253_402_300_799 < 86_400 * period.0 <= 253_402_300_799
            + 28_800),
{
    periods_in_the_calendar_have_a_name(policy, period.0 as int);
    let start = period.0 * policy.period_seconds()->0;
    if policy is Hourly {
        assert(policy.period_seconds()->0 == 3600);
        assert(start == period.0 * 3600);
    } else {
        assert(policy.period_seconds()->0 == 86_400);
        assert(start == period.0 * 86_400);
    }
}

/// Every error is told in its own words.
pub proof fn rotation_errors_are_told_apart(
    left: RotationError,
    right: RotationError,
    left_text: String,
    right_text: String,
)
    requires
        call_ensures(RotationError::message, (left,), left_text),
        call_ensures(RotationError::message, (right,), right_text),
    ensures
        left == right <==> left_text@ == right_text@,
        left is PeriodOutOfRange <==> left_text@ == "log rotation period is out of range"@,
        left is TimestampOutOfRange <==> left_text@ == "log rotation timestamp is out of range"@,
        left is OutsideCalendar <==> left_text@ == "timestamp was not in range"@,
        left is TooManyArchives <==> left_text@ == "too many colliding log archives"@,
{
    reveal_strlit("log rotation period is out of range");
    reveal_strlit("log rotation timestamp is out of range");
    reveal_strlit("timestamp was not in range");
    reveal_strlit("too many colliding log archives");
    assert("log rotation period is out of range"@.len() == 35);
    assert("log rotation timestamp is out of range"@.len() == 38);
    assert("timestamp was not in range"@.len() == 26);
    assert("too many colliding log archives"@.len() == 31);
}

} // verus!
