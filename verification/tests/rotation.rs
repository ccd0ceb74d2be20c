use std::cell::RefCell;
use std::collections::BTreeSet;

use logs::calendar::CALENDAR_LAST_SECOND;
use logs::duration::Duration;
use logs::rotation::{
    archive_suffix, duration_until_next_period, free_archive_name, is_local_time,
    is_past_calendar, is_worth_archiving, local_unix_nanos, rotation_period, stale_suffix,
    RotationError, RotationPeriod, RotationSchedule,
};
use logs::RotationPolicy;

const SECOND: i128 = 1_000_000_000;

fn unix_nanos(year: i32, month: time::Month, day: u8, hour: u8, minute: u8) -> i128 {
    time::Date::from_calendar_date(year, month, day)
        .unwrap()
        .with_hms(hour, minute, 0)
        .unwrap()
        .assume_utc()
        .unix_timestamp_nanos()
}

#[test]
fn rotation_suffixes_use_fixed_utc_plus_eight_periods() {
    let timestamp = unix_nanos(2026, time::Month::September, 21, 8, 30);

    let hourly = rotation_period(RotationPolicy::Hourly, timestamp).unwrap();
    let daily = rotation_period(RotationPolicy::Daily, timestamp).unwrap();

    assert_eq!(
        archive_suffix(RotationPolicy::Hourly, hourly).unwrap(),
        "20260921-16"
    );
    assert_eq!(
        archive_suffix(RotationPolicy::Daily, daily).unwrap(),
        "20260921"
    );
    assert_eq!(
        duration_until_next_period(RotationPolicy::Hourly, timestamp),
        Duration::from_secs(30 * 60)
    );

    let utc_previous_day = unix_nanos(2026, time::Month::September, 20, 16, 30);
    let local_midnight = rotation_period(RotationPolicy::Hourly, utc_previous_day).unwrap();
    assert_eq!(
        archive_suffix(RotationPolicy::Hourly, local_midnight).unwrap(),
        "20260921-00"
    );
}

#[test]
fn periods_are_counted_on_the_local_clock() {
    assert_eq!(rotation_period(RotationPolicy::Never, 0), None);
    assert_eq!(rotation_period(RotationPolicy::Hourly, 0), Some(RotationPeriod(8)));
    assert_eq!(rotation_period(RotationPolicy::Daily, 0), Some(RotationPeriod(0)));
    assert_eq!(
        rotation_period(RotationPolicy::Daily, 16 * 3600 * SECOND - 1),
        Some(RotationPeriod(0))
    );
    assert_eq!(
        rotation_period(RotationPolicy::Daily, 16 * 3600 * SECOND),
        Some(RotationPeriod(1))
    );
    assert_eq!(
        rotation_period(RotationPolicy::Daily, -8 * 3600 * SECOND - 1),
        Some(RotationPeriod(-1))
    );
    assert_eq!(local_unix_nanos(-1), 28_800 * SECOND - 1);
    assert!(is_local_time(i128::MAX - 28_800 * SECOND));
    assert!(!is_local_time(i128::MAX - 28_800 * SECOND + 1));
}

#[test]
fn the_next_period_is_never_now() {
    assert_eq!(
        duration_until_next_period(RotationPolicy::Daily, 16 * 3600 * SECOND),
        Duration::from_secs(24 * 3600)
    );
    assert_eq!(
        duration_until_next_period(RotationPolicy::Daily, 16 * 3600 * SECOND - 1),
        Duration::new(0, 1)
    );
    assert_eq!(
        duration_until_next_period(RotationPolicy::Hourly, -1),
        Duration::new(0, 1)
    );
    assert_eq!(
        duration_until_next_period(RotationPolicy::Hourly, i128::MIN).as_nanos() % 1_000_000_000,
        ((-(i128::MIN % SECOND)) % SECOND) as u128
    );
}

#[test]
fn suffixes_are_owed_only_for_times_in_the_calendar() {
    let hourly = RotationPolicy::Hourly;
    assert_eq!(
        archive_suffix(hourly, RotationPeriod(i128::MAX)),
        Err(RotationError::PeriodOutOfRange)
    );
    assert_eq!(
        archive_suffix(hourly, RotationPeriod(i128::MIN)),
        Err(RotationError::PeriodOutOfRange)
    );
    assert_eq!(
        archive_suffix(hourly, RotationPeriod(i128::MIN / 3600)),
        Err(RotationError::TimestampOutOfRange)
    );
    assert_eq!(
        archive_suffix(hourly, RotationPeriod(i64::MAX as i128)),
        Err(RotationError::TimestampOutOfRange)
    );
    assert_eq!(
        archive_suffix(hourly, RotationPeriod(i64::MAX as i128 / 3600)),
        Err(RotationError::OutsideCalendar)
    );
    let last = (CALENDAR_LAST_SECOND / 3600) as i128;
    assert_eq!(
        archive_suffix(hourly, RotationPeriod(last)),
        Ok("99991231-23".to_string())
    );
    assert!(!is_past_calendar(hourly, RotationPeriod(last)));
    assert!(is_past_calendar(hourly, RotationPeriod(last + 1)));
    assert!(is_past_calendar(hourly, RotationPeriod(last + 8)));
    assert!(!is_past_calendar(hourly, RotationPeriod(last + 9)));
    assert!(!is_past_calendar(hourly, RotationPeriod(i128::MAX)));
    assert_eq!(
        archive_suffix(hourly, RotationPeriod(last + 9)),
        Err(RotationError::OutsideCalendar)
    );
    assert_eq!(
        archive_suffix(RotationPolicy::Daily, RotationPeriod(-719_529)),
        Ok("-0011231".to_string())
    );
}

#[test]
fn neighbouring_periods_have_different_suffixes() {
    let mut seen = BTreeSet::new();
    let mut last = String::new();
    for number in 490_000..490_100 {
        let suffix = archive_suffix(RotationPolicy::Hourly, RotationPeriod(number)).unwrap();
        assert!(last < suffix);
        last = suffix.clone();
        assert!(seen.insert(suffix));
    }
}

#[test]
fn errors_have_their_texts() {
    assert_eq!(
        RotationError::PeriodOutOfRange.message(),
        "log rotation period is out of range"
    );
    assert_eq!(
        RotationError::TimestampOutOfRange.message(),
        "log rotation timestamp is out of range"
    );
    let outside = time::OffsetDateTime::from_unix_timestamp(i64::MAX).unwrap_err();
    assert_eq!(RotationError::OutsideCalendar.message(), outside.to_string());
    assert_eq!(
        RotationError::TooManyArchives.message(),
        "too many colliding log archives"
    );
}

#[test]
fn files_of_earlier_periods_are_stale() {
    let policy = RotationPolicy::Daily;
    let noon = 4 * 3600 * SECOND;
    let today = rotation_period(policy, noon).unwrap();
    assert_eq!(stale_suffix(policy, today, noon - 1), Ok(None));
    assert_eq!(
        stale_suffix(policy, today, noon - 12 * 3600 * SECOND - 1),
        Ok(Some("19691231".to_string()))
    );
    assert_eq!(stale_suffix(policy, today, noon + 1000 * 3600 * SECOND), Ok(None));
    assert_eq!(stale_suffix(RotationPolicy::Never, today, i128::MIN), Ok(None));
    assert_eq!(
        stale_suffix(policy, today, i128::MIN),
        Err(RotationError::TimestampOutOfRange)
    );
    assert!(!is_worth_archiving(0));
    assert!(is_worth_archiving(1));
}

#[test]
fn schedules_move_on_at_the_boundary() {
    assert_eq!(RotationSchedule::at(RotationPolicy::Never, 0, 0), None);
    let start = 1_800 * SECOND;
    let mut schedule = RotationSchedule::at(RotationPolicy::Hourly, start, 1_000).unwrap();
    assert_eq!(schedule.current_period, RotationPeriod(8));
    assert_eq!(schedule.next_deadline, 1_000 + 1_800 * SECOND as u128);
    assert!(!schedule.is_due(999 + 1_800 * SECOND as u64));
    assert!(schedule.is_due(1_000 + 1_800 * SECOND as u64));

    assert!(!schedule.has_passed(3_600 * SECOND - 1));
    assert_eq!(schedule.plan(3_600 * SECOND - 1), Ok(None));
    assert_eq!(
        schedule.plan(3_600 * SECOND),
        Ok(Some("19700101-08".to_string()))
    );
    schedule.renew(2 * 3_600 * SECOND + 1, 5_000);
    assert_eq!(schedule.current_period, RotationPeriod(10));
    assert_eq!(schedule.next_deadline, 5_000 + 3_600 * SECOND as u128 - 1);

    schedule.renew(0, 6_000);
    assert_eq!(schedule.current_period, RotationPeriod(10));
    assert_eq!(schedule.next_deadline, 6_000 + 3_600 * SECOND as u128);
}

#[test]
fn rotation_never_overwrites_an_existing_archive() {
    let existing = ["info.log.20260921-16"];
    assert_eq!(
        free_archive_name("info.log", "20260921-16", |name: &str| existing.contains(&name)),
        Ok("info.log.20260921-16.1".to_string())
    );
    assert_eq!(
        free_archive_name("warn.log", "20260921-16", |name: &str| existing.contains(&name)),
        Ok("warn.log.20260921-16".to_string())
    );
}

#[test]
fn archive_names_are_tried_in_order() {
    let tried = RefCell::new(Vec::new());
    let name = free_archive_name("api.log", "20260921", |name: &str| {
        tried.borrow_mut().push(name.to_string());
        tried.borrow().len() < 12
    });
    assert_eq!(name, Ok("api.log.20260921.11".to_string()));
    let tried = tried.into_inner();
    assert_eq!(tried[0], "api.log.20260921");
    assert_eq!(tried[1], "api.log.20260921.1");
    assert_eq!(tried[10], "api.log.20260921.10");
    let distinct: BTreeSet<&String> = tried.iter().collect();
    assert_eq!(distinct.len(), tried.len());
}
