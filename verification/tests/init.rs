use logs::filter::filter_is_readable;
use logs::guard::{flush_outcome, unavailable_message};
use logs::init::{checked_filter, prepare};
use logs::{InitError, LogsConfig};

fn filter_text(filter: &str) -> String {
    prepare(&LogsConfig::default().with_filter(filter))
        .unwrap()
        .to_string()
}

#[test]
fn filters_are_read() {
    assert_eq!(filter_text("info"), "info");
    assert_eq!(filter_text("WARN"), "warn");
    assert_eq!(filter_text("hyper"), "hyper=trace");
    assert_eq!(filter_text("debug,hyper=warn"), "hyper=warn,debug");
}

#[test]
fn faulty_filters_are_named() {
    let error = prepare(&LogsConfig::default().with_filter("app=loud")).unwrap_err();
    let parsed = tracing_subscriber::EnvFilter::try_new("app=loud").unwrap_err();
    assert_eq!(
        error.message(),
        format!("invalid Breeze logs filter: {parsed}")
    );
    assert!(matches!(error, InitError::InvalidFilter(_)));
    assert!(matches!(
        prepare(&LogsConfig::default().with_filter("=")),
        Err(InitError::InvalidFilter(text)) if text == "invalid filter directive"
    ));
}

#[test]
fn the_configuration_is_judged_before_the_filter() {
    let config = LogsConfig::default().with_filter("=").with_queue_capacity(0);
    assert!(matches!(
        prepare(&config),
        Err(InitError::InvalidConfig(text)) if text == "log queue capacity must be greater than zero"
    ));
}

#[test]
fn the_outcome_of_reading_is_passed_on() {
    let filter = tracing_subscriber::EnvFilter::new("error");
    assert_eq!(checked_filter(Ok(filter)).unwrap().to_string(), "error");
    assert!(matches!(
        checked_filter(Err("no".to_string())),
        Err(InitError::InvalidFilter(text)) if text == "no"
    ));
}

#[test]
fn directives_that_are_cut_inside_a_character_are_told() {
    assert!(filter_is_readable(""));
    assert!(filter_is_readable("info, hyper=warn"));
    assert!(filter_is_readable("caf\u{e9}=warn"));
    assert!(filter_is_readable("info, caf\u{e9}"));
    assert!(filter_is_readable(" a=b,caf\u{e9}=warn"));
    assert!(filter_is_readable("caf\u{e9}=warn,"));
    assert!(filter_is_readable("caf\u{e9}[s\u{e9}{f\u{e9}=1}]=warn "));
    assert!(!filter_is_readable("info, caf\u{e9}=warn"));
    assert!(!filter_is_readable("\u{3000}a[b]"));
    assert!(!filter_is_readable(" [a\u{e9}]"));
    assert!(!filter_is_readable(" [{\u{e9}}]"));
    assert!(!filter_is_readable("\u{3000}[]=info"));
}

#[test]
fn directives_that_are_cut_between_characters_are_read() {
    for (filter, valid) in [
        (" \u{e9}1=info", false),
        (" [\u{e9}a]", true),
        (" a=\u{e9}]x", false),
        (" (\u{e9}=", false),
        (" \u{ab}\u{e9}=info", false),
        (" \u{e9}]", true),
        (" [a]\u{e9}=", false),
        (" [{}\u{e9}}]", false),
        ("\u{3000}info", true),
        (" [{n\u{e9}=1}]=info", false),
        (" a[\u{e9}", false),
    ] {
        assert!(filter_is_readable(filter), "{filter}");
        let parsed = tracing_subscriber::EnvFilter::try_new(filter);
        let prepared = prepare(&LogsConfig::default().with_filter(filter));
        assert_eq!(parsed.is_ok(), prepared.is_ok(), "{filter}");
        assert_eq!(prepared.is_ok(), valid, "{filter}");
    }
}

#[test]
fn errors_say_what_went_wrong() {
    assert_eq!(
        InitError::InvalidConfig("a".to_string()).message(),
        "invalid Breeze logs configuration: a"
    );
    assert_eq!(
        InitError::InvalidFilter("b".to_string()).message(),
        "invalid Breeze logs filter: b"
    );
    assert_eq!(
        InitError::Io("c".to_string()).message(),
        "failed to initialize Breeze log files: c"
    );
    assert_eq!(
        InitError::GlobalSubscriberAlreadyInstalled.message(),
        "a global tracing subscriber is already installed"
    );
}

#[test]
fn a_lost_worker_is_explained() {
    assert_eq!(flush_outcome(Some(Ok(())), None), Ok(()));
    assert_eq!(
        flush_outcome(Some(Err("disk".to_string())), None),
        Err("disk".to_string())
    );
    assert_eq!(
        flush_outcome(None, None),
        Err("Breeze log worker is unavailable".to_string())
    );
    assert_eq!(
        flush_outcome(None, Some("write zero".to_string())),
        Err("write zero".to_string())
    );
    assert_eq!(unavailable_message(Some("gone".to_string())), "gone");
}
