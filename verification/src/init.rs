//! What is checked and made before the first event is written.

use brz_ds::EphemeralBytesArena;
use tracing_subscriber::EnvFilter;
use vstd::prelude::*;

use crate::arena::arena_chunk_bytes;
use crate::config::LogsConfig;
use crate::filter::{is_readable, is_word, parse_filter, parsed_filter};
use crate::hint::{at_most, LineCapacityHint, MIN_INITIAL_LINE_BYTES};
use crate::line::MAX_INITIAL_LINE_BYTES;

verus! {

/// Why logging could not be set up.
#[derive(Debug)]
pub enum InitError {
    InvalidConfig(String),
    InvalidFilter(String),
    Io(String),
    GlobalSubscriberAlreadyInstalled,
}

impl InitError {
    /// What is said about the error.
    pub open spec fn text(&self) -> Seq<char> {
        match self {
            InitError::InvalidConfig(text) => "invalid Breeze logs configuration: "@ + text@,
            InitError::InvalidFilter(text) => "invalid Breeze logs filter: "@ + text@,
            InitError::Io(text) => "failed to initialize Breeze log files: "@ + text@,
            InitError::GlobalSubscriberAlreadyInstalled =>
                "a global tracing subscriber is already installed"@,
        }
    }

    /// What is said about the error.
    pub fn message(&self) -> (r: String)
        ensures
            r@ == self.text(),
    {
        let mut message = String::new();
        match self {
            InitError::InvalidConfig(text) => {
                message.append("invalid Breeze logs configuration: ");
                message.append(text.as_str());
            },
            InitError::InvalidFilter(text) => {
                message.append("invalid Breeze logs filter: ");
                message.append(text.as_str());
            },
            InitError::Io(text) => {
                message.append("failed to initialize Breeze log files: ");
                message.append(text.as_str());
            },
            InitError::GlobalSubscriberAlreadyInstalled => {
                message.append("a global tracing subscriber is already installed");
            },
        }
        assert(message@ =~= self.text());
        message
    }
}

/// The outcome of reading the filter.
pub fn checked_filter(parsed: Result<EnvFilter, String>) -> (r: Result<EnvFilter, InitError>)
    ensures
        match parsed {
            Ok(filter) => r == Ok::<EnvFilter, InitError>(filter),
            Err(text) => r == Err::<EnvFilter, InitError>(InitError::InvalidFilter(text)),
        },
{
    match parsed {
        Ok(filter) => Ok(filter),
        Err(text) => Err(InitError::InvalidFilter(text)),
    }
}

/// Accepts a configuration and reads its filter.
pub fn prepare(config: &LogsConfig) -> (r: Result<EnvFilter, InitError>)
    requires
        config.fault() is None ==> is_readable(config.filter@),
    ensures
        match (config.fault(), parsed_filter(config.filter@)) {
            (Some(fault), _) => r matches Err(InitError::InvalidConfig(text)) && text@ == fault,
            (None, Err(error)) => r matches Err(InitError::InvalidFilter(text)) && text@ == error,
            (None, Ok(filter)) => r == Ok::<EnvFilter, InitError>(filter),
        },
        config.fault() is None && is_word(config.filter@) ==> r is Ok,
{
    match config.validate() {
        Ok(()) => checked_filter(parse_filter(config.filter.as_str())),
        Err(text) => Err(InitError::InvalidConfig(text)),
    }
}

/// The arena for the segments of lines, and the size to start with.
pub fn line_buffers(config: &LogsConfig) -> (r: (EphemeralBytesArena, LineCapacityHint))
    requires
        config.fault() is None,
        2 * config.arena_chunk_bytes <= isize::MAX,
    ensures
        arena_chunk_bytes(r.0) == config.arena_chunk_bytes,
        r.1.wf(),
        r.1.minimum == at_most(config.max_line_bytes as int, MIN_INITIAL_LINE_BYTES as int),
        r.1.maximum == at_most(config.max_line_bytes as int, MAX_INITIAL_LINE_BYTES as int),
        r.1.capacity == r.1.minimum,
        r.1.capacity > 0,
        r.1.low_usage_count == 0,
{
    let arena = EphemeralBytesArena::new(config.arena_chunk_bytes);
    (arena, LineCapacityHint::new(config.max_line_bytes))
}

/// What is said about an error ends with its cause, behind words that tell which error
/// it is.
pub proof fn errors_show_their_cause(error: InitError)
    ensures
        ({
            let text = error.text();
            let ends_with = |start: Seq<char>, cause: Seq<char>|
                text.len() == start.len() + cause.len() && text.take(start.len() as int) == start
                    && text.skip(start.len() as int) == cause;
            match error {
                InitError::InvalidConfig(cause) => ends_with(
                    "invalid Breeze logs configuration: "@,
                    cause@,
                ),
                InitError::InvalidFilter(cause) => ends_with(
                    "invalid Breeze logs filter: "@,
                    cause@,
                ),
                InitError::Io(cause) => ends_with(
                    "failed to initialize Breeze log files: "@,
                    cause@,
                ),
                InitError::GlobalSubscriberAlreadyInstalled => text
                    == "a global tracing subscriber is already installed"@,
            }
        }),
{
    let text = error.text();
    match error {
        InitError::InvalidConfig(cause) => {
            let start = "invalid Breeze logs configuration: "@;
            assert(text.take(start.len() as int) =~= start);
            assert(text.skip(start.len() as int) =~= cause@);
        },
        InitError::InvalidFilter(cause) => {
            let start = "invalid Breeze logs filter: "@;
            assert(text.take(start.len() as int) =~= start);
            assert(text.skip(start.len() as int) =~= cause@);
        },
        InitError::Io(cause) => {
            let start = "failed to initialize Breeze log files: "@;
            assert(text.take(start.len() as int) =~= start);
            assert(text.skip(start.len() as int) =~= cause@);
        },
        InitError::GlobalSubscriberAlreadyInstalled => {},
    }
}

/// A configuration is accepted exactly where it has no fault and its filter can be
/// read; a fault is told before anything is said of the filter.
pub proof fn sound_configurations_with_a_filter_are_prepared(
    config: LogsConfig,
    prepared: Result<EnvFilter, InitError>,
)
    requires
        config.fault() is None ==> is_readable(config.filter@),
        call_ensures(prepare, (&config,), prepared),
    ensures
        prepared is Ok <==> config.fault() is None && parsed_filter(config.filter@) is Ok,
        prepared is Ok ==> parsed_filter(config.filter@) == Ok::<EnvFilter, Seq<char>>(
            prepared->Ok_0,
        ),
        config.fault() is Some <==> prepared matches Err(InitError::InvalidConfig(_)),
        prepared matches Err(InitError::InvalidConfig(text)) ==> Some(text@) == config.fault(),
        prepared matches Err(InitError::InvalidFilter(text)) ==> Err::<EnvFilter, Seq<char>>(text@)
            == parsed_filter(config.filter@),
{
}

/// The arena has chunks of the configured size. Lines start in segments of 512 bytes, or
/// of their limit where that is less, and may come to 2048.
pub proof fn buffers_follow_the_configuration(
    config: LogsConfig,
    buffers: (EphemeralBytesArena, LineCapacityHint),
)
    requires
        config.fault() is None,
        2 * config.arena_chunk_bytes <= isize::MAX,
        call_ensures(line_buffers, (&config,), buffers),
    ensures
        arena_chunk_bytes(buffers.0) == config.arena_chunk_bytes,
        buffers.1.capacity == if config.max_line_bytes < 512 {
            config.max_line_bytes
        } else {
            512
        },
        buffers.1.maximum == if config.max_line_bytes < 2048 {
            config.max_line_bytes
        } else {
            2048
        },
        buffers.1.minimum == buffers.1.capacity,
        buffers.1.low_usage_count == 0,
{
}

/// What came of reading a filter is passed on, an error as that of the filter.
pub proof fn the_outcome_of_reading_is_passed_on(
    parsed: Result<EnvFilter, String>,
    outcome: Result<EnvFilter, InitError>,
)
    requires
        call_ensures(checked_filter, (parsed,), outcome),
    ensures
        outcome is Ok <==> parsed is Ok,
        parsed is Ok ==> outcome->Ok_0 == parsed->Ok_0,
        parsed is Err ==> outcome == Err::<EnvFilter, InitError>(
            InitError::InvalidFilter(parsed->Err_0),
        ),
{
}

/// The message of an error ends with its cause.
pub proof fn messages_end_with_their_cause(error: InitError, message: String)
    requires
        call_ensures(InitError::message, (&error,), message),
    ensures
        message@ == error.text(),
        match error {
            InitError::InvalidConfig(cause) => message@.skip(message@.len() - cause@.len())
                == cause@,
            InitError::InvalidFilter(cause) => message@.skip(message@.len() - cause@.len())
                == cause@,
            InitError::Io(cause) => message@.skip(message@.len() - cause@.len()) == cause@,
            InitError::GlobalSubscriberAlreadyInstalled => message@
                == "a global tracing subscriber is already installed"@,
        },
{
    errors_show_their_cause(error);
}

} // verus!
