use std::path::PathBuf;

use logs::duration::Duration;
use logs::init::prepare;
use logs::{
    FlushPolicy, InitError, LogsConfig, OverflowPolicy, RotationPolicy, DEFAULT_ARENA_CHUNK_BYTES,
    DEFAULT_MAX_LINE_BYTES, DEFAULT_QUEUE_CAPACITY,
};

#[test]
fn parses_rotation_policy_case_insensitively() {
    assert_eq!("never".parse(), Ok(RotationPolicy::Never));
    assert_eq!("HOURLY".parse(), Ok(RotationPolicy::Hourly));
    assert_eq!(" daily ".parse(), Ok(RotationPolicy::Daily));
    assert!("weekly".parse::<RotationPolicy>().is_err());
}

#[test]
fn names_an_unknown_rotation_policy_as_written() {
    assert_eq!(
        " \"week\tly".parse::<RotationPolicy>(),
        Err(
            "unsupported log rotation policy \" \\\"week\\tly\"; expected never, hourly, or daily"
                .to_string()
        )
    );
    assert_eq!(
        "\u{3000}DaIlY\u{2028}".parse::<RotationPolicy>(),
        Ok(RotationPolicy::Daily)
    );
    assert!("da ily".parse::<RotationPolicy>().is_err());
    assert!("ha\u{130}ly".parse::<RotationPolicy>().is_err());
}

#[test]
fn defaults_match_the_example_runtime_contract() {
    let config = LogsConfig::default();

    assert_eq!(config.directory.to_string_lossy(), "./logs");
    assert_eq!(config.filter, "info");
    assert_eq!(config.arena_chunk_bytes, DEFAULT_ARENA_CHUNK_BYTES);
    assert_eq!(config.flush_policy, FlushPolicy::default());
    assert_eq!(config.overflow_policy, OverflowPolicy::DropNewest);
}

#[test]
fn defaults_are_the_documented_numbers() {
    let config = LogsConfig::default();
    assert_eq!(config.queue_capacity, 16_384);
    assert_eq!(config.arena_chunk_bytes, 16 * 1024 * 1024);
    assert_eq!(config.max_line_bytes, 64 * 1024);
    assert_eq!(config.rotation_policy, RotationPolicy::Never);
    assert_eq!(
        config.flush_policy,
        FlushPolicy::IntervalAndError(Duration::from_secs(1))
    );
    assert_eq!(config.queue_capacity, DEFAULT_QUEUE_CAPACITY);
    assert_eq!(config.max_line_bytes, DEFAULT_MAX_LINE_BYTES);
    assert_eq!(config.validate(), Ok(()));
    assert_eq!(config.clone(), config);
}

#[test]
fn rejects_unbounded_or_non_flushing_configuration() {
    let config = LogsConfig::default().with_queue_capacity(0);
    assert!(matches!(
        prepare(&config),
        Err(InitError::InvalidConfig(_))
    ));

    let config = LogsConfig::default().with_flush_policy(FlushPolicy::Interval(Duration::new(0, 0)));
    assert!(matches!(
        prepare(&config),
        Err(InitError::InvalidConfig(_))
    ));

    let config = LogsConfig::default().with_arena_chunk_bytes(0);
    assert!(matches!(
        prepare(&config),
        Err(InitError::InvalidConfig(_))
    ));
}

fn complaint(config: LogsConfig) -> String {
    config.validate().unwrap_err()
}

#[test]
fn names_the_first_fault() {
    let config = LogsConfig::default();
    assert_eq!(
        complaint(config.clone().with_directory("").with_filter("")),
        "log directory must not be empty"
    );
    assert_eq!(
        complaint(config.clone().with_filter(" \t\u{a0}").with_queue_capacity(0)),
        "log filter must not be empty"
    );
    assert_eq!(
        complaint(config.clone().with_queue_capacity(0).with_arena_chunk_bytes(0)),
        "log queue capacity must be greater than zero"
    );
    assert_eq!(
        complaint(config.clone().with_arena_chunk_bytes(0).with_max_line_bytes(63)),
        "log arena chunk size must be in 1..4294967295 bytes"
    );
    assert_eq!(
        complaint(config.clone().with_arena_chunk_bytes(u32::MAX as usize)),
        "log arena chunk size must be in 1..4294967295 bytes"
    );
    assert_eq!(
        complaint(
            config
                .clone()
                .with_max_line_bytes(63)
                .with_flush_policy(FlushPolicy::IntervalAndError(Duration::from_secs(0)))
        ),
        "maximum log line size must be at least 64 bytes"
    );
    assert_eq!(
        complaint(
            config
                .clone()
                .with_flush_policy(FlushPolicy::IntervalAndError(Duration::from_secs(0)))
        ),
        "log flush interval must be greater than zero"
    );
}

#[test]
fn accepts_the_smallest_and_largest_values() {
    let config = LogsConfig::default()
        .with_queue_capacity(1)
        .with_arena_chunk_bytes(1)
        .with_max_line_bytes(64)
        .with_flush_policy(FlushPolicy::Interval(Duration::new(0, 1)))
        .with_rotation_policy(RotationPolicy::Daily)
        .with_overflow_policy(OverflowPolicy::Block);
    assert_eq!(config.validate(), Ok(()));
    assert_eq!(config.rotation_policy, RotationPolicy::Daily);
    assert_eq!(config.overflow_policy, OverflowPolicy::Block);
    assert_eq!(
        config
            .with_arena_chunk_bytes(u32::MAX as usize - 1)
            .with_flush_policy(FlushPolicy::EveryLine)
            .validate(),
        Ok(())
    );
}

#[test]
fn reads_the_values_of_the_environment() {
    let config = LogsConfig::from_values(
        Some(PathBuf::from("/var/log/breeze")),
        Some("debug,hyper=warn".to_string()),
        Some("Hourly".to_string()),
    );
    assert_eq!(config.directory, PathBuf::from("/var/log/breeze"));
    assert_eq!(config.filter, "debug,hyper=warn");
    assert_eq!(config.rotation_policy, RotationPolicy::Hourly);
    assert_eq!(config.queue_capacity, DEFAULT_QUEUE_CAPACITY);

    let ignored = LogsConfig::from_values(
        Some(PathBuf::new()),
        Some(" \n".to_string()),
        Some("weekly".to_string()),
    );
    assert_eq!(ignored, LogsConfig::default());
    assert_eq!(LogsConfig::from_values(None, None, None), LogsConfig::default());
}

#[test]
fn flush_policies_say_when_to_flush() {
    let second = Duration::from_secs(1);
    assert_eq!(FlushPolicy::Interval(second).interval(), Some(second));
    assert_eq!(FlushPolicy::IntervalAndError(second).interval(), Some(second));
    assert_eq!(FlushPolicy::EveryLine.interval(), None);
    assert!(!FlushPolicy::Interval(second).flush_after_error());
    assert!(FlushPolicy::IntervalAndError(second).flush_after_error());
    assert!(FlushPolicy::EveryLine.flush_after_error());
    assert!(FlushPolicy::EveryLine.flush_after_every_line());
    assert!(!FlushPolicy::IntervalAndError(second).flush_after_every_line());
    assert!(!FlushPolicy::Interval(second).flush_after_every_line());
}
