use logs::calendar::{
    leaves_calendar, shanghai_time, LocalTime, OutsideCalendar, CALENDAR_FIRST_SECOND,
    CALENDAR_LAST_SECOND,
};
use logs::format::{
    event_label, is_dedicated_target, write_event, write_timestamp, Destination, Level, Metadata,
};
use logs::text::{write_decimal, write_padded};

fn rendered(unix_seconds: i64) -> String {
    let mut text = String::new();
    write_timestamp(&mut text, &shanghai_time(unix_seconds).unwrap());
    text
}

#[test]
fn timestamp_is_fixed_utc_plus_eight_without_a_zone_suffix() {
    let timestamp = shanghai_time(0).unwrap();
    let mut rendered = String::new();

    write_timestamp(&mut rendered, &timestamp);

    assert_eq!(rendered, "1970-01-01 08:00:00");
}

#[test]
fn timestamps_cover_the_whole_calendar() {
    assert_eq!(rendered(1_788_073_817), "2026-08-30 15:10:17");
    assert_eq!(rendered(1_709_193_600), "2024-02-29 16:00:00");
    assert_eq!(rendered(951_753_599), "2000-02-28 23:59:59");
    assert_eq!(rendered(951_753_600), "2000-02-29 00:00:00");
    assert_eq!(rendered(-62_167_248_001), "-001-12-31 23:59:59");
    assert_eq!(rendered(-62_167_248_000), "0000-01-01 00:00:00");
    assert_eq!(rendered(CALENDAR_FIRST_SECOND), "-9999-01-01 08:00:00");
    assert_eq!(rendered(CALENDAR_LAST_SECOND - 28_800), "9999-12-31 23:59:59");
    assert_eq!(rendered(CALENDAR_LAST_SECOND - 28_800).len(), 19);
}

#[test]
fn timestamps_differ_from_second_to_second() {
    assert_ne!(rendered(0), rendered(1));
    assert_ne!(shanghai_time(59), shanghai_time(60));
}

#[test]
fn timestamps_sort_as_times() {
    let seconds = [-62_167_248_000, -1, 0, 59, 60, 86_399, 951_753_600, 1_788_073_817];
    for pair in seconds.windows(2) {
        assert!(rendered(pair[0]) < rendered(pair[1]));
    }
}

#[test]
fn the_calendar_has_an_end() {
    assert_eq!(shanghai_time(CALENDAR_FIRST_SECOND - 1), Err(OutsideCalendar));
    assert_eq!(shanghai_time(CALENDAR_LAST_SECOND + 1), Err(OutsideCalendar));
    assert_eq!(shanghai_time(i64::MAX), Err(OutsideCalendar));
    assert!(leaves_calendar(CALENDAR_LAST_SECOND));
    assert!(leaves_calendar(CALENDAR_LAST_SECOND - 28_799));
    assert!(!leaves_calendar(CALENDAR_LAST_SECOND - 28_800));
    assert!(!leaves_calendar(CALENDAR_LAST_SECOND + 1));
}

#[test]
fn an_event_is_dated_labelled_and_ended() {
    let local = LocalTime {
        year: 2026,
        month: 8,
        day: 30,
        hour: 15,
        minute: 10,
        second: 17,
    };
    let metadata = Metadata {
        target: "storage::list",
        level: Level::Info,
    };
    let mut text = String::from("before|");
    write_event(
        &mut text,
        &local,
        &metadata,
        "ListStorage get new version. listId:6296, version:1684410575955",
    );
    assert_eq!(
        text,
        "before|2026-08-30 15:10:17 [INFO] ListStorage get new version. \
         listId:6296, version:1684410575955\n"
    );
    for zone in ["+08:00", "Asia/Shanghai", "CST"] {
        assert!(!text.contains(zone));
    }
}

#[test]
fn labels_and_files_follow_target_and_level() {
    let cases = [
        ("app", Level::Trace, "TRACE", Destination::Info),
        ("app", Level::Debug, "DEBUG", Destination::Info),
        ("app", Level::Info, "INFO", Destination::Info),
        ("app", Level::Warn, "WARN", Destination::Warn),
        ("app", Level::Error, "ERROR", Destination::Error),
        ("breeze.api", Level::Error, "API", Destination::Api),
        ("breeze.slow", Level::Warn, "SLOW", Destination::Slow),
        ("breeze.fallback", Level::Info, "FALLBACK", Destination::Fallback),
        ("breeze.api.v2", Level::Info, "INFO", Destination::Info),
        ("Breeze.Api", Level::Warn, "WARN", Destination::Warn),
    ];
    for (target, level, label, destination) in cases {
        let metadata = Metadata { target, level };
        assert_eq!(event_label(&metadata), label);
        assert_eq!(Destination::for_metadata(&metadata), destination);
        let dedicated = matches!(
            destination,
            Destination::Api | Destination::Slow | Destination::Fallback
        );
        assert_eq!(is_dedicated_target(target), dedicated);
    }
}

#[test]
fn each_destination_has_one_file() {
    let names: Vec<&str> = Destination::all()
        .iter()
        .map(|destination| destination.file_name())
        .collect();
    assert_eq!(
        names,
        vec![
            "info.log",
            "warn.log",
            "error.log",
            "api.log",
            "slow.log",
            "fallback.log"
        ]
    );
}

#[test]
fn numbers_are_written_in_decimal() {
    let mut text = String::new();
    write_decimal(&mut text, 0);
    text.push(' ');
    write_decimal(&mut text, u32::MAX);
    text.push(' ');
    write_padded(&mut text, 7, 4);
    text.push(' ');
    write_padded(&mut text, 12345, 2);
    text.push(' ');
    write_padded(&mut text, 0, 0);
    assert_eq!(text, "0 4294967295 0007 12345 0");
}
