//! What a caller can configure.

use std::path::PathBuf;
use std::str::FromStr;
use vstd::prelude::*;
use vstd::utf8::encode_utf8;

use crate::duration::Duration;
use crate::text::{
    ascii_lower, debug_form, debug_text, is_blank, is_white_space, trimmed,
    trimmed_is_empty_when_blank,
};

verus! {

/// Where the files go by default.
pub const DEFAULT_LOG_DIRECTORY: &'static str = "./logs";

/// How many lines the queue holds by default.
pub const DEFAULT_QUEUE_CAPACITY: usize = 16_384;

/// Bytes in each of the two arena chunks by default.
pub const DEFAULT_ARENA_CHUNK_BYTES: usize = 16_777_216;

/// The longest line by default.
pub const DEFAULT_MAX_LINE_BYTES: usize = 65_536;

/// What happens to a line when the queue is full.
#[derive(Debug, Clone, Copy, PartialEq, Eq, Structural)]
pub enum OverflowPolicy {
    DropNewest,
    Block,
}

/// When the files are flushed.
#[derive(Debug, Clone, Copy, PartialEq, Eq, Structural)]
pub enum FlushPolicy {
    Interval(Duration),
    IntervalAndError(Duration),
    EveryLine,
}

/// When the files are archived and started anew.
#[derive(Debug, Clone, Copy, PartialEq, Eq, Structural)]
pub enum RotationPolicy {
    Never,
    Hourly,
    Daily,
}

impl Default for OverflowPolicy {
    fn default() -> (r: Self)
        ensures
            r == OverflowPolicy::DropNewest,
    {
        OverflowPolicy::DropNewest
    }
}

impl Default for RotationPolicy {
    fn default() -> (r: Self)
        ensures
            r == RotationPolicy::Never,
    {
        RotationPolicy::Never
    }
}

impl Default for FlushPolicy {
    fn default() -> (r: Self)
        ensures
            r == FlushPolicy::IntervalAndError(Duration { secs: 1, nanos: 0 }),
    {
        FlushPolicy::IntervalAndError(Duration::from_secs(1))
    }
}

/// The policy of a given name.
pub open spec fn policy_named(name: Seq<char>) -> Option<RotationPolicy> {
    if name == "never"@ {
        Some(RotationPolicy::Never)
    } else if name == "hourly"@ {
        Some(RotationPolicy::Hourly)
    } else if name == "daily"@ {
        Some(RotationPolicy::Daily)
    } else {
        None
    }
}

/// The policy that a text names, apart from case and surrounding white space.
pub open spec fn parsed_policy(value: Seq<char>) -> Option<RotationPolicy> {
    policy_named(trimmed(value).map_values(|c: char| ascii_lower(c)))
}

/// What is said about a text that names no policy.
pub open spec fn policy_error(value: Seq<char>) -> Seq<char> {
    "unsupported log rotation policy "@ + debug_form(value)
        + "; expected never, hourly, or daily"@
}

impl RotationPolicy {
    /// Reads a policy by its name.
    pub fn parse(value: &str) -> (r: Result<RotationPolicy, String>)
        ensures
            r is Ok <==> parsed_policy(value@) is Some,
            r matches Ok(policy) ==> parsed_policy(value@) == Some(policy),
            r matches Err(text) ==> text@ == policy_error(value@),
    {
        let name = value.trim().to_ascii_lowercase();
        if *name.as_str() == *"never" {
            return Ok(RotationPolicy::Never);
        }
        if *name.as_str() == *"hourly" {
            return Ok(RotationPolicy::Hourly);
        }
        if *name.as_str() == *"daily" {
            return Ok(RotationPolicy::Daily);
        }
        let mut text = "unsupported log rotation policy ".to_owned();
        text.append(debug_text(value).as_str());
        text.append("; expected never, hourly, or daily");
        Err(text)
    }
}

impl FromStr for RotationPolicy {
    type Err = String;

    fn from_str(value: &str) -> (r: Result<Self, Self::Err>)
        ensures
            r is Ok <==> parsed_policy(value@) is Some,
            r matches Ok(policy) ==> parsed_policy(value@) == Some(policy),
            r matches Err(text) ==> text@ == policy_error(value@),
            call_ensures(RotationPolicy::parse, (value,), r),
    {
        RotationPolicy::parse(value)
    }
}

impl FlushPolicy {
    /// The span between flushes, where there is one.
    pub open spec fn span(self) -> Option<Duration> {
        match self {
            FlushPolicy::Interval(interval) => Some(interval),
            FlushPolicy::IntervalAndError(interval) => Some(interval),
            FlushPolicy::EveryLine => None,
        }
    }

    /// The span between flushes, where there is one.
    pub fn interval(self) -> (r: Option<Duration>)
        ensures
            r == self.span(),
    {
        match self {
            FlushPolicy::Interval(interval) => Some(interval),
            FlushPolicy::IntervalAndError(interval) => Some(interval),
            FlushPolicy::EveryLine => None,
        }
    }

    /// Whether a batch that holds an error line is flushed at once.
    pub fn flush_after_error(self) -> (r: bool)
        ensures
            r == !(self is Interval),
    {
        match self {
            FlushPolicy::Interval(_) => false,
            FlushPolicy::IntervalAndError(_) => true,
            FlushPolicy::EveryLine => true,
        }
    }

    /// Whether every batch is flushed at once.
    pub fn flush_after_every_line(self) -> (r: bool)
        ensures
            r == (self is EveryLine),
    {
        match self {
            FlushPolicy::EveryLine => true,
            _ => false,
        }
    }
}

/// A path in the file system.
#[verifier::external_type_specification]
#[verifier::external_body]
pub struct ExPathBuf(std::path::PathBuf);

/// The bytes that a path is made of.
pub uninterp spec fn path_bytes(path: PathBuf) -> Seq<u8>;

/// `PathBuf::from`: the path that the text spells, in UTF-8.
#[verifier::external_body]
fn path_from(text: &str) -> (r: PathBuf)
    ensures
        path_bytes(r) == encode_utf8(text@),
{
    PathBuf::from(text)
}

/// `OsStr::is_empty` of the path's text: whether it has no bytes at all.
#[verifier::external_body]
fn directory_is_empty(path: &PathBuf) -> (r: bool)
    ensures
        r == (path_bytes(*path).len() == 0),
{
    path.as_os_str().is_empty()
}

/// `PathBuf::clone`: the same path.
pub assume_specification[ <PathBuf as Clone>::clone ](path: &PathBuf) -> (r: PathBuf)
    ensures
        r == *path,
;

/// Everything that can be configured.
#[derive(Debug, PartialEq, Eq)]
pub struct LogsConfig {
    pub directory: PathBuf,
    pub filter: String,
    pub queue_capacity: usize,
    pub arena_chunk_bytes: usize,
    pub flush_policy: FlushPolicy,
    pub rotation_policy: RotationPolicy,
    pub overflow_policy: OverflowPolicy,
    pub max_line_bytes: usize,
}

impl Clone for LogsConfig {
    fn clone(&self) -> (r: Self)
        ensures
            r == *self,
    {
        LogsConfig {
            directory: self.directory.clone(),
            filter: self.filter.clone(),
            queue_capacity: self.queue_capacity,
            arena_chunk_bytes: self.arena_chunk_bytes,
            flush_policy: self.flush_policy,
            rotation_policy: self.rotation_policy,
            overflow_policy: self.overflow_policy,
            max_line_bytes: self.max_line_bytes,
        }
    }
}

impl Default for LogsConfig {
    fn default() -> (r: Self)
        ensures
            path_bytes(r.directory) == encode_utf8("./logs"@),
            r.filter@ == "info"@,
            r.queue_capacity == DEFAULT_QUEUE_CAPACITY,
            r.arena_chunk_bytes == DEFAULT_ARENA_CHUNK_BYTES,
            r.flush_policy == FlushPolicy::IntervalAndError(Duration { secs: 1, nanos: 0 }),
            r.rotation_policy == RotationPolicy::Never,
            r.overflow_policy == OverflowPolicy::DropNewest,
            r.max_line_bytes == DEFAULT_MAX_LINE_BYTES,
            r.fault() is None,
    {
        proof {
            reveal_strlit("./logs");
            reveal_strlit("info");
            assert(encode_utf8("./logs"@).len() > 0);
            assert(!is_blank("info"@)) by {
                assert("info"@[0] == 'i');
            }
        }
        LogsConfig {
            directory: path_from(DEFAULT_LOG_DIRECTORY),
            filter: "info".to_owned(),
            queue_capacity: DEFAULT_QUEUE_CAPACITY,
            arena_chunk_bytes: DEFAULT_ARENA_CHUNK_BYTES,
            flush_policy: FlushPolicy::default(),
            rotation_policy: RotationPolicy::default(),
            overflow_policy: OverflowPolicy::default(),
            max_line_bytes: DEFAULT_MAX_LINE_BYTES,
        }
    }
}

impl LogsConfig {
    /// What is wrong with the configuration, if anything: the first of these
    /// complaints that applies.
    pub open spec fn fault(&self) -> Option<Seq<char>> {
        if path_bytes(self.directory).len() == 0 {
            Some("log directory must not be empty"@)
        } else if is_blank(self.filter@) {
            Some("log filter must not be empty"@)
        } else if self.queue_capacity == 0 {
            Some("log queue capacity must be greater than zero"@)
        } else if !(1 <= self.arena_chunk_bytes < u32::MAX) {
            Some("log arena chunk size must be in 1..4294967295 bytes"@)
        } else if self.max_line_bytes < 64 {
            Some("maximum log line size must be at least 64 bytes"@)
        } else if self.flush_policy.span() matches Some(interval) && interval.total_nanos() == 0 {
            Some("log flush interval must be greater than zero"@)
        } else {
            None
        }
    }

    /// Accepts the configuration, or says what is wrong with it.
    pub fn validate(&self) -> (r: Result<(), String>)
        ensures
            r is Ok <==> self.fault() is None,
            r matches Err(text) ==> self.fault() == Some(text@),
    {
        proof {
            trimmed_is_empty_when_blank(self.filter@);
        }
        if directory_is_empty(&self.directory) {
            return Err("log directory must not be empty".to_owned());
        }
        if self.filter.as_str().trim().is_empty() {
            return Err("log filter must not be empty".to_owned());
        }
        if self.queue_capacity == 0 {
            return Err("log queue capacity must be greater than zero".to_owned());
        }
        if self.arena_chunk_bytes == 0 || self.arena_chunk_bytes >= u32::MAX as usize {
            return Err("log arena chunk size must be in 1..4294967295 bytes".to_owned());
        }
        if self.max_line_bytes < 64 {
            return Err("maximum log line size must be at least 64 bytes".to_owned());
        }
        if let Some(interval) = self.flush_policy.interval() {
            if interval.is_zero() {
                return Err("log flush interval must be greater than zero".to_owned());
            }
        }
        Ok(())
    }

    /// The defaults, except for what the values of the environment set: a
    /// directory that is not empty, a filter that is not blank, and a rotation
    /// policy that can be read.
    pub fn from_values(
        directory: Option<PathBuf>,
        filter: Option<String>,
        rotation_policy: Option<String>,
    ) -> (r: Self)
        ensures
            match directory {
                Some(path) if path_bytes(path).len() > 0 => r.directory == path,
                _ => path_bytes(r.directory) == encode_utf8("./logs"@),
            },
            r.filter@ == match filter {
                Some(text) if !is_blank(text@) => text@,
                _ => "info"@,
            },
            r.rotation_policy == match rotation_policy {
                Some(text) if parsed_policy(text@) is Some => parsed_policy(text@).unwrap(),
                _ => RotationPolicy::Never,
            },
            r.queue_capacity == DEFAULT_QUEUE_CAPACITY,
            r.arena_chunk_bytes == DEFAULT_ARENA_CHUNK_BYTES,
            r.flush_policy == FlushPolicy::IntervalAndError(Duration { secs: 1, nanos: 0 }),
            r.overflow_policy == OverflowPolicy::DropNewest,
            r.max_line_bytes == DEFAULT_MAX_LINE_BYTES,
            r.fault() is None,
    {
        let mut config = LogsConfig::default();
        if let Some(path) = directory {
            if !directory_is_empty(&path) {
                config.directory = path;
            }
        }
        if let Some(text) = filter {
            proof {
                trimmed_is_empty_when_blank(text@);
            }
            if !text.as_str().trim().is_empty() {
                config.filter = text;
            }
        }
        if let Some(text) = rotation_policy {
            if let Ok(policy) = RotationPolicy::parse(text.as_str()) {
                config.rotation_policy = policy;
            }
        }
        config
    }

    /// Sets the directory of the files.
    pub fn with_directory<T: Into<PathBuf>>(self, directory: T) -> (r: Self)
        ensures
            call_ensures(<T as Into<PathBuf>>::into, (directory,), r.directory),
            r == (LogsConfig { directory: r.directory, ..self }),
    {
        let mut config = self;
        config.directory = directory.into();
        config
    }

    /// Sets the filter directives.
    pub fn with_filter<T: Into<String>>(self, filter: T) -> (r: Self)
        ensures
            call_ensures(<T as Into<String>>::into, (filter,), r.filter),
            r == (LogsConfig { filter: r.filter, ..self }),
    {
        let mut config = self;
        config.filter = filter.into();
        config
    }

    /// Sets how many lines the queue holds.
    pub fn with_queue_capacity(self, queue_capacity: usize) -> (r: Self)
        ensures
            r == (LogsConfig { queue_capacity, ..self }),
    {
        let mut config = self;
        config.queue_capacity = queue_capacity;
        config
    }

    /// Sets the size of each of the two arena chunks.
    pub fn with_arena_chunk_bytes(self, arena_chunk_bytes: usize) -> (r: Self)
        ensures
            r == (LogsConfig { arena_chunk_bytes, ..self }),
    {
        let mut config = self;
        config.arena_chunk_bytes = arena_chunk_bytes;
        config
    }

    /// Sets when the files are flushed.
    pub fn with_flush_policy(self, flush_policy: FlushPolicy) -> (r: Self)
        ensures
            r == (LogsConfig { flush_policy, ..self }),
    {
        let mut config = self;
        config.flush_policy = flush_policy;
        config
    }

    /// Sets when the files are archived.
    pub fn with_rotation_policy(self, rotation_policy: RotationPolicy) -> (r: Self)
        ensures
            r == (LogsConfig { rotation_policy, ..self }),
    {
        let mut config = self;
        config.rotation_policy = rotation_policy;
        config
    }

    /// Sets what happens to a line when the queue is full.
    pub fn with_overflow_policy(self, overflow_policy: OverflowPolicy) -> (r: Self)
        ensures
            r == (LogsConfig { overflow_policy, ..self }),
    {
        let mut config = self;
        config.overflow_policy = overflow_policy;
        config
    }

    /// Sets the longest line.
    pub fn with_max_line_bytes(self, max_line_bytes: usize) -> (r: Self)
        ensures
            r == (LogsConfig { max_line_bytes, ..self }),
    {
        let mut config = self;
        config.max_line_bytes = max_line_bytes;
        config
    }
}

/// A text names a policy exactly where it is the name of that policy, apart from the
/// case of its ASCII letters and from white space around it.
pub proof fn policies_are_read_by_name(value: Seq<char>)
    ensures
        ({
            let name = trimmed(value).map_values(|c: char| ascii_lower(c));
            &&& parsed_policy(value) == Some(RotationPolicy::Never) <==> name == "never"@
            &&& parsed_policy(value) == Some(RotationPolicy::Hourly) <==> name == "hourly"@
            &&& parsed_policy(value) == Some(RotationPolicy::Daily) <==> name == "daily"@
            &&& parsed_policy(value) is None <==> name != "never"@ && name != "hourly"@ && name
                != "daily"@
        }),
{
    reveal_strlit("never");
    reveal_strlit("hourly");
    reveal_strlit("daily");
    assert("never"@.len() == 5 && "hourly"@.len() == 6 && "daily"@.len() == 5);
    assert("never"@[0] == 'n' && "daily"@[0] == 'd');
}

/// Texts that differ only in the case of letters and in white space around them name
/// the same policy.
pub proof fn case_and_white_space_do_not_matter(left: Seq<char>, right: Seq<char>)
    requires
        trimmed(left).map_values(|c: char| ascii_lower(c)) == trimmed(right).map_values(
            |c: char| ascii_lower(c),
        ),
    ensures
        parsed_policy(left) == parsed_policy(right),
{
}

/// What is said of a text that names no policy shows that text, between words that
/// are always the same.
pub proof fn policy_errors_show_the_text(left: Seq<char>, right: Seq<char>)
    ensures
        ({
            let text = policy_error(left);
            let start = "unsupported log rotation policy "@;
            let end = "; expected never, hourly, or daily"@;
            &&& text.len() == start.len() + debug_form(left).len() + end.len()
            &&& text.take(start.len() as int) == start
            &&& text.skip(text.len() - end.len()) == end
            &&& text.subrange(start.len() as int, text.len() - end.len()) == debug_form(left)
        }),
        policy_error(left) == policy_error(right) ==> debug_form(left) == debug_form(right),
{
    lemma_policy_error(left);
    lemma_policy_error(right);
}

proof fn lemma_policy_error(value: Seq<char>)
    ensures
        ({
            let text = policy_error(value);
            let start = "unsupported log rotation policy "@;
            let end = "; expected never, hourly, or daily"@;
            &&& text.len() == start.len() + debug_form(value).len() + end.len()
            &&& text.take(start.len() as int) == start
            &&& text.skip(text.len() - end.len()) == end
            &&& text.subrange(start.len() as int, text.len() - end.len()) == debug_form(value)
        }),
{
    let text = policy_error(value);
    let start = "unsupported log rotation policy "@;
    let end = "; expected never, hourly, or daily"@;
    assert(text.take(start.len() as int) =~= start);
    assert(text.skip(text.len() - end.len()) =~= end);
    assert(text.subrange(start.len() as int, text.len() - end.len()) =~= debug_form(value));
}

/// Flushes are apart by the interval of the policy, except where every line is flushed.
pub proof fn intervals_belong_to_the_policy(policy: FlushPolicy, interval: Duration)
    ensures
        policy.span() is None <==> policy is EveryLine,
        policy.span() == Some(interval) <==> policy == FlushPolicy::Interval(interval) || policy
            == FlushPolicy::IntervalAndError(interval),
{
}

impl LogsConfig {
    /// Whether the interval between flushes, where there is one, has no length.
    pub open spec fn never_waits_to_flush(&self) -> bool {
        match self.flush_policy {
            FlushPolicy::Interval(interval) => interval.secs == 0 && interval.nanos == 0,
            FlushPolicy::IntervalAndError(interval) => interval.secs == 0 && interval.nanos == 0,
            FlushPolicy::EveryLine => false,
        }
    }
}

/// A configuration is accepted exactly where it has a directory and a filter, room in
/// the queue, chunks of 1 to 4294967294 bytes, lines of at least 64 bytes, and time
/// between flushes.
pub proof fn sound_configurations_are_accepted(config: LogsConfig)
    ensures
        config.fault() is None <==> {
            &&& path_bytes(config.directory).len() > 0
            &&& exists|i: int|
                0 <= i < config.filter@.len() && !is_white_space(#[trigger] config.filter@[i])
            &&& config.queue_capacity >= 1
            &&& 1 <= config.arena_chunk_bytes <= 4_294_967_294
            &&& config.max_line_bytes >= 64
            &&& !config.never_waits_to_flush()
        },
{
}

/// Of several faults the first is named: directory, filter, queue, chunks, lines,
/// interval.
pub proof fn the_first_fault_is_named(config: LogsConfig)
    ensures
        ({
            let directory = path_bytes(config.directory).len() == 0;
            let filter = is_blank(config.filter@);
            let queue = config.queue_capacity == 0;
            let chunks = config.arena_chunk_bytes == 0 || config.arena_chunk_bytes
                >= 4_294_967_295;
            let lines = config.max_line_bytes < 64;
            &&& directory ==> config.fault() == Some("log directory must not be empty"@)
            &&& !directory && filter ==> config.fault() == Some("log filter must not be empty"@)
            &&& !directory && !filter && queue ==> config.fault() == Some(
                "log queue capacity must be greater than zero"@,
            )
            &&& !directory && !filter && !queue && chunks ==> config.fault() == Some(
                "log arena chunk size must be in 1..4294967295 bytes"@,
            )
            &&& !directory && !filter && !queue && !chunks && lines ==> config.fault() == Some(
                "maximum log line size must be at least 64 bytes"@,
            )
            &&& !directory && !filter && !queue && !chunks && !lines
                && config.never_waits_to_flush() ==> config.fault() == Some(
                "log flush interval must be greater than zero"@,
            )
        }),
{
}

/// Whatever the environment holds, what it asks for is accepted, and only directory,
/// filter and rotation can differ from the defaults.
pub proof fn the_environment_cannot_spoil_the_configuration(
    directory: Option<PathBuf>,
    filter: Option<String>,
    rotation: Option<String>,
    config: LogsConfig,
    other: LogsConfig,
)
    requires
        call_ensures(LogsConfig::from_values, (directory, filter, rotation), config),
        call_ensures(LogsConfig::from_values, (None, None, None), other),
    ensures
        config.fault() is None,
        config.queue_capacity == other.queue_capacity,
        config.arena_chunk_bytes == other.arena_chunk_bytes,
        config.flush_policy == other.flush_policy,
        config.overflow_policy == other.overflow_policy,
        config.max_line_bytes == other.max_line_bytes,
        directory matches Some(path) && path_bytes(path).len() > 0 ==> config.directory
            == directory->0,
        directory is None || path_bytes(directory->0).len() == 0 ==> path_bytes(config.directory)
            == path_bytes(other.directory),
        filter matches Some(text) && !is_blank(text@) ==> config.filter@ == filter->0@,
        filter is None || is_blank(filter->0@) ==> config.filter@ == other.filter@,
        rotation matches Some(text) && parsed_policy(text@) is Some ==> Some(config.rotation_policy)
            == parsed_policy(rotation->0@),
        rotation is None || parsed_policy(rotation->0@) is None ==> config.rotation_policy
            == other.rotation_policy && other.rotation_policy is Never,
{
}

/// Each setter sets its own field and leaves the others alone.
pub proof fn setters_set_one_field(
    config: LogsConfig,
    size: usize,
    flush_policy: FlushPolicy,
    rotation_policy: RotationPolicy,
    overflow_policy: OverflowPolicy,
    with_queue: LogsConfig,
    with_chunks: LogsConfig,
    with_lines: LogsConfig,
    with_flush: LogsConfig,
    with_rotation: LogsConfig,
    with_overflow: LogsConfig,
)
    requires
        call_ensures(LogsConfig::with_queue_capacity, (config, size), with_queue),
        call_ensures(LogsConfig::with_arena_chunk_bytes, (config, size), with_chunks),
        call_ensures(LogsConfig::with_max_line_bytes, (config, size), with_lines),
        call_ensures(LogsConfig::with_flush_policy, (config, flush_policy), with_flush),
        call_ensures(LogsConfig::with_rotation_policy, (config, rotation_policy), with_rotation),
        call_ensures(LogsConfig::with_overflow_policy, (config, overflow_policy), with_overflow),
    ensures
        with_queue == (LogsConfig { queue_capacity: size, ..config }),
        with_chunks == (LogsConfig { arena_chunk_bytes: size, ..config }),
        with_lines == (LogsConfig { max_line_bytes: size, ..config }),
        with_flush == (LogsConfig { flush_policy, ..config }),
        with_rotation == (LogsConfig { rotation_policy, ..config }),
        with_overflow == (LogsConfig { overflow_policy, ..config }),
{
}

/// The directory and the filter are set to what the caller's value becomes, and nothing
/// else changes.
pub proof fn converting_setters_set_one_field<D: Into<PathBuf>, F: Into<String>>(
    config: LogsConfig,
    directory: D,
    filter: F,
    with_directory: LogsConfig,
    with_filter: LogsConfig,
)
    requires
        call_ensures(LogsConfig::with_directory::<D>, (config, directory), with_directory),
        call_ensures(LogsConfig::with_filter::<F>, (config, filter), with_filter),
    ensures
        call_ensures(<D as Into<PathBuf>>::into, (directory,), with_directory.directory),
        with_directory == (LogsConfig { directory: with_directory.directory, ..config }),
        call_ensures(<F as Into<String>>::into, (filter,), with_filter.filter),
        with_filter == (LogsConfig { filter: with_filter.filter, ..config }),
{
}

/// A configuration is accepted exactly where it has no fault, and refused with the first
/// one.
pub proof fn validation_tells_the_first_fault(config: LogsConfig, outcome: Result<(), String>)
    requires
        call_ensures(LogsConfig::validate, (&config,), outcome),
    ensures
        outcome is Ok <==> config.fault() is None,
        outcome matches Err(text) ==> Some(text@) == config.fault(),
{
}

/// A text is read as the policy that it names, or refused with a message that shows it.
pub proof fn policies_are_parsed(value: &str, outcome: Result<RotationPolicy, String>)
    requires
        call_ensures(RotationPolicy::parse, (value,), outcome),
    ensures
        ({
            let name = trimmed(value@).map_values(|c: char| ascii_lower(c));
            &&& outcome == Ok::<RotationPolicy, String>(RotationPolicy::Never) <==> name == "never"@
            &&& outcome == Ok::<RotationPolicy, String>(RotationPolicy::Hourly) <==> name
                == "hourly"@
            &&& outcome == Ok::<RotationPolicy, String>(RotationPolicy::Daily) <==> name == "daily"@
            &&& outcome matches Err(text) ==> text@ == policy_error(value@)
        }),
{
    policies_are_read_by_name(value@);
}

/// Policies say when the files are flushed: after every batch only where every line is,
/// after errors except by the interval alone, and by the clock except where every line
/// is.
pub proof fn flush_policies_say_when(
    policy: FlushPolicy,
    interval: Option<Duration>,
    after_error: bool,
    after_every_line: bool,
)
    requires
        call_ensures(FlushPolicy::interval, (policy,), interval),
        call_ensures(FlushPolicy::flush_after_error, (policy,), after_error),
        call_ensures(FlushPolicy::flush_after_every_line, (policy,), after_every_line),
    ensures
        match policy {
            FlushPolicy::Interval(span) => interval == Some(span) && !after_error
                && !after_every_line,
            FlushPolicy::IntervalAndError(span) => interval == Some(span) && after_error
                && !after_every_line,
            FlushPolicy::EveryLine => interval is None && after_error && after_every_line,
        },
{
}

/// Without anything set, files are in `./logs`, the filter is `info`, files are flushed
/// every second and behind errors, nothing is archived, and lines that find the queue
/// full are dropped. A copy is the same configuration.
pub proof fn defaults_are_sound(
    config: LogsConfig,
    flush_policy: FlushPolicy,
    rotation_policy: RotationPolicy,
    overflow_policy: OverflowPolicy,
    copy: LogsConfig,
)
    requires
        call_ensures(<LogsConfig as Default>::default, (), config),
        call_ensures(<FlushPolicy as Default>::default, (), flush_policy),
        call_ensures(<RotationPolicy as Default>::default, (), rotation_policy),
        call_ensures(<OverflowPolicy as Default>::default, (), overflow_policy),
        call_ensures(<LogsConfig as Clone>::clone, (&config,), copy),
    ensures
        config.fault() is None,
        path_bytes(config.directory) == encode_utf8("./logs"@),
        config.filter@ == "info"@,
        config.queue_capacity == 16_384,
        config.arena_chunk_bytes == 16 * 1024 * 1024,
        config.max_line_bytes == 64 * 1024,
        config.flush_policy == flush_policy,
        config.rotation_policy == rotation_policy,
        config.overflow_policy == overflow_policy,
        flush_policy == FlushPolicy::IntervalAndError(Duration { secs: 1, nanos: 0 }),
        rotation_policy is Never,
        overflow_policy is DropNewest,
        copy == config,
{
}

} // verus!
