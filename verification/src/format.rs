//! How an event is labelled, routed and dated.

use vstd::prelude::*;

use crate::calendar::{clock_readings_are_ordered, LocalTime};
use crate::text::{
    all_digits, decimals_read_back, lemma_block_sorts, lemma_padded_len, lemma_padded_sorts,
    lemma_take_further, number, padded, padded_number_reads_back, padded_numbers_read_back, signed_numbers_read_back,
    signed_padded, signed_padded_is_unique, sorts_before, write_padded,
};

verus! {

/// The severity of an event.
#[derive(Debug, Clone, Copy, PartialEq, Eq, Structural)]
pub enum Level {
    Trace,
    Debug,
    Info,
    Warn,
    Error,
}

impl Level {
    /// The name of the level.
    pub open spec fn name(self) -> Seq<char> {
        match self {
            Level::Trace => "TRACE"@,
            Level::Debug => "DEBUG"@,
            Level::Info => "INFO"@,
            Level::Warn => "WARN"@,
            Level::Error => "ERROR"@,
        }
    }

    /// The name of the level.
    pub fn as_str(self) -> (r: &'static str)
        ensures
            r@ == self.name(),
    {
        match self {
            Level::Trace => "TRACE",
            Level::Debug => "DEBUG",
            Level::Info => "INFO",
            Level::Warn => "WARN",
            Level::Error => "ERROR",
        }
    }
}

/// What is known of an event before its message.
#[derive(Debug, Clone, Copy)]
pub struct Metadata<'a> {
    pub target: &'a str,
    pub level: Level,
}

/// The file that a line goes to.
#[derive(Debug, Clone, Copy, PartialEq, Eq, Structural)]
pub enum Destination {
    Info,
    Warn,
    Error,
    Api,
    Slow,
    Fallback,
}

/// Whether a target has a file of its own.
pub open spec fn dedicated(target: Seq<char>) -> bool {
    target == "breeze.api"@ || target == "breeze.fallback"@ || target == "breeze.slow"@
}

/// The label of an event: that of its dedicated target, or else its level.
pub open spec fn label(target: Seq<char>, level: Level) -> Seq<char> {
    if target == "breeze.api"@ {
        "API"@
    } else if target == "breeze.fallback"@ {
        "FALLBACK"@
    } else if target == "breeze.slow"@ {
        "SLOW"@
    } else {
        level.name()
    }
}

/// The destination of an event: that of its dedicated target, or else that of
/// its level.
pub open spec fn route(target: Seq<char>, level: Level) -> Destination {
    if target == "breeze.api"@ {
        Destination::Api
    } else if target == "breeze.slow"@ {
        Destination::Slow
    } else if target == "breeze.fallback"@ {
        Destination::Fallback
    } else {
        match level {
            Level::Error => Destination::Error,
            Level::Warn => Destination::Warn,
            _ => Destination::Info,
        }
    }
}

/// The label of an event.
pub fn event_label(metadata: &Metadata<'_>) -> (r: &'static str)
    ensures
        r@ == label(metadata.target@, metadata.level),
{
    if *metadata.target == *"breeze.api" {
        "API"
    } else if *metadata.target == *"breeze.fallback" {
        "FALLBACK"
    } else if *metadata.target == *"breeze.slow" {
        "SLOW"
    } else {
        metadata.level.as_str()
    }
}

/// Whether a target has a file of its own.
pub fn is_dedicated_target(target: &str) -> (r: bool)
    ensures
        r == dedicated(target@),
{
    *target == *"breeze.api" || *target == *"breeze.fallback" || *target == *"breeze.slow"
}

impl Destination {
    /// The destination of an event.
    pub fn for_metadata(metadata: &Metadata<'_>) -> (r: Self)
        ensures
            r == route(metadata.target@, metadata.level),
    {
        if *metadata.target == *"breeze.api" {
            return Destination::Api;
        }
        if *metadata.target == *"breeze.slow" {
            return Destination::Slow;
        }
        if *metadata.target == *"breeze.fallback" {
            return Destination::Fallback;
        }
        match metadata.level {
            Level::Error => Destination::Error,
            Level::Warn => Destination::Warn,
            _ => Destination::Info,
        }
    }

    /// The name of the file.
    pub open spec fn file(self) -> Seq<char> {
        match self {
            Destination::Info => "info.log"@,
            Destination::Warn => "warn.log"@,
            Destination::Error => "error.log"@,
            Destination::Api => "api.log"@,
            Destination::Slow => "slow.log"@,
            Destination::Fallback => "fallback.log"@,
        }
    }

    /// The name of the file.
    pub fn file_name(self) -> (r: &'static str)
        ensures
            r@ == self.file(),
    {
        match self {
            Destination::Info => "info.log",
            Destination::Warn => "warn.log",
            Destination::Error => "error.log",
            Destination::Api => "api.log",
            Destination::Slow => "slow.log",
            Destination::Fallback => "fallback.log",
        }
    }

    /// All destinations, in the order in which their files are handled.
    pub open spec fn order() -> Seq<Destination> {
        seq![
            Destination::Info,
            Destination::Warn,
            Destination::Error,
            Destination::Api,
            Destination::Slow,
            Destination::Fallback,
        ]
    }

    /// All destinations, in the order in which their files are handled.
    pub fn all() -> (r: Vec<Destination>)
        ensures
            r@ == Destination::order(),
    {
        let r = vec![
            Destination::Info,
            Destination::Warn,
            Destination::Error,
            Destination::Api,
            Destination::Slow,
            Destination::Fallback,
        ];
        assert(r@ =~= Destination::order());
        r
    }
}

/// Date and time of day, to the second, without a zone.
pub open spec fn timestamp_text(local: LocalTime) -> Seq<char> {
    signed_padded(local.year as int, 4) + "-"@ + padded(local.month as nat, 2) + "-"@ + padded(
        local.day as nat,
        2,
    ) + " "@ + padded(local.hour as nat, 2) + ":"@ + padded(local.minute as nat, 2) + ":"@
        + padded(local.second as nat, 2)
}

/// Appends date and time of day.
pub fn write_timestamp(writer: &mut String, timestamp: &LocalTime)
    requires
        timestamp.wf(),
    ensures
        final(writer)@ == old(writer)@ + timestamp_text(*timestamp),
{
    let mut text = String::new();
    write_signed(&mut text, timestamp.year);
    proof {
        assert(text@ =~= signed_padded(timestamp.year as int, 4));
    }
    text.append("-");
    write_padded(&mut text, timestamp.month as u32, 2);
    text.append("-");
    write_padded(&mut text, timestamp.day as u32, 2);
    text.append(" ");
    write_padded(&mut text, timestamp.hour as u32, 2);
    text.append(":");
    write_padded(&mut text, timestamp.minute as u32, 2);
    text.append(":");
    write_padded(&mut text, timestamp.second as u32, 2);
    writer.append(text.as_str());
}

/// Appends a year of at least four characters.
pub(crate) fn write_signed(writer: &mut String, year: i32)
    requires
        -9999 <= year <= 9999,
    ensures
        final(writer)@ == old(writer)@ + signed_padded(year as int, 4),
{
    if year < 0 {
        writer.append("-");
        write_padded(writer, (-year) as u32, 3);
        proof {
            reveal_strlit("-");
            assert("-"@ =~= seq!['-']);
            assert(writer@ =~= old(writer)@ + signed_padded(year as int, 4));
        }
    } else {
        write_padded(writer, year as u32, 4);
    }
}

/// The text of an event: date and time, label, and what the event says.
pub open spec fn event_text(
    local: LocalTime,
    target: Seq<char>,
    level: Level,
    fields: Seq<char>,
) -> Seq<char> {
    timestamp_text(local) + " ["@ + label(target, level) + "] "@ + fields + "\n"@
}

/// Appends the text of an event.
pub fn write_event(
    writer: &mut String,
    timestamp: &LocalTime,
    metadata: &Metadata<'_>,
    fields: &str,
)
    requires
        timestamp.wf(),
    ensures
        final(writer)@ == old(writer)@ + event_text(
            *timestamp,
            metadata.target@,
            metadata.level,
            fields@,
        ),
{
    let mut text = String::new();
    write_timestamp(&mut text, timestamp);
    assert(text@ =~= timestamp_text(*timestamp));
    text.append(" [");
    text.append(event_label(metadata));
    text.append("] ");
    text.append(fields);
    text.append("\n");
    writer.append(text.as_str());
}

proof fn lemma_timestamp_parts(local: LocalTime)
    requires
        local.wf(),
    ensures
        ({
            let text = timestamp_text(local);
            let end = text.len() - 15;
            &&& text.len() >= 15
            &&& text.take(end) == signed_padded(local.year as int, 4)
            &&& text[end] == '-'
            &&& text.subrange(end + 1, end + 3) == padded(local.month as nat, 2)
            &&& text[end + 3] == '-'
            &&& text.subrange(end + 4, end + 6) == padded(local.day as nat, 2)
            &&& text[end + 6] == ' '
            &&& text.subrange(end + 7, end + 9) == padded(local.hour as nat, 2)
            &&& text[end + 9] == ':'
            &&& text.subrange(end + 10, end + 12) == padded(local.minute as nat, 2)
            &&& text[end + 12] == ':'
            &&& text.subrange(end + 13, end + 15) == padded(local.second as nat, 2)
        }),
{
    lemma_padded_len(local.month as nat, 2);
    lemma_padded_len(local.day as nat, 2);
    lemma_padded_len(local.hour as nat, 2);
    lemma_padded_len(local.minute as nat, 2);
    lemma_padded_len(local.second as nat, 2);
    reveal_strlit("-");
    reveal_strlit(" ");
    reveal_strlit(":");
    let text = timestamp_text(local);
    let end = text.len() - 15;
    assert(text.take(end) =~= signed_padded(local.year as int, 4));
    assert(text.subrange(end + 1, end + 3) =~= padded(local.month as nat, 2));
    assert(text.subrange(end + 4, end + 6) =~= padded(local.day as nat, 2));
    assert(text.subrange(end + 7, end + 9) =~= padded(local.hour as nat, 2));
    assert(text.subrange(end + 10, end + 12) =~= padded(local.minute as nat, 2));
    assert(text.subrange(end + 13, end + 15) =~= padded(local.second as nat, 2));
}

/// A timestamp of our era has nineteen characters and ends with the seconds: there
/// is no room for a zone.
pub proof fn timestamps_carry_no_zone(local: LocalTime)
    requires
        local.wf(),
        local.year >= 0,
    ensures
        timestamp_text(local).len() == 19,
        timestamp_text(local).skip(17) == padded(local.second as nat, 2),
{
    lemma_timestamp_parts(local);
    lemma_padded_len(local.year as nat, 4);
    assert(timestamp_text(local).skip(17) =~= timestamp_text(local).subrange(17, 19));
}

/// A timestamp tells the date and the time of day to the second.
pub proof fn timestamps_tell_times_apart(left: LocalTime, right: LocalTime)
    requires
        left.wf(),
        right.wf(),
        timestamp_text(left) == timestamp_text(right),
    ensures
        left == right,
{
    lemma_timestamp_parts(left);
    lemma_timestamp_parts(right);
    signed_padded_is_unique(left.year as int, right.year as int, 4);
    padded_number_reads_back(left.month as nat, 2);
    padded_number_reads_back(right.month as nat, 2);
    padded_number_reads_back(left.day as nat, 2);
    padded_number_reads_back(right.day as nat, 2);
    padded_number_reads_back(left.hour as nat, 2);
    padded_number_reads_back(right.hour as nat, 2);
    padded_number_reads_back(left.minute as nat, 2);
    padded_number_reads_back(right.minute as nat, 2);
    padded_number_reads_back(left.second as nat, 2);
    padded_number_reads_back(right.second as nat, 2);
}

/// Timestamps of our era sort as times.
pub proof fn timestamps_sort_as_times(left: LocalTime, right: LocalTime)
    requires
        left.wf(),
        right.wf(),
        left.year >= 0,
        right.year >= 0,
        left.clock_seconds() < right.clock_seconds(),
    ensures
        sorts_before(timestamp_text(left), timestamp_text(right)),
{
    clock_readings_are_ordered(left, right);
    let (a, b) = (timestamp_text(left), timestamp_text(right));
    lemma_timestamp_blocks(left);
    lemma_timestamp_blocks(right);
    assert(a.take(0) =~= b.take(0));
    if left.year != right.year {
        lemma_padded_sorts(left.year as nat, right.year as nat, 4);
        lemma_block_sorts(a, b, 0, 4);
    } else {
        lemma_take_further(a, b, 0, 4);
        lemma_same_separator(a, b, 4);
        if left.month != right.month {
            lemma_padded_sorts(left.month as nat, right.month as nat, 2);
            lemma_block_sorts(a, b, 5, 7);
        } else {
            lemma_take_further(a, b, 5, 7);
            lemma_same_separator(a, b, 7);
            if left.day != right.day {
                lemma_padded_sorts(left.day as nat, right.day as nat, 2);
                lemma_block_sorts(a, b, 8, 10);
            } else {
                lemma_take_further(a, b, 8, 10);
                lemma_same_separator(a, b, 10);
                lemma_times_of_day_sort(left, right);
            }
        }
    }
}

proof fn lemma_times_of_day_sort(left: LocalTime, right: LocalTime)
    requires
        left.wf(),
        right.wf(),
        left.year >= 0,
        right.year >= 0,
        left.year == right.year && left.month == right.month && left.day == right.day,
        left.comes_before(right),
        timestamp_text(left).take(11) == timestamp_text(right).take(11),
    ensures
        sorts_before(timestamp_text(left), timestamp_text(right)),
{
    let (a, b) = (timestamp_text(left), timestamp_text(right));
    lemma_timestamp_blocks(left);
    lemma_timestamp_blocks(right);
    if left.hour != right.hour {
        lemma_padded_sorts(left.hour as nat, right.hour as nat, 2);
        lemma_block_sorts(a, b, 11, 13);
    } else {
        lemma_take_further(a, b, 11, 13);
        lemma_same_separator(a, b, 13);
        if left.minute != right.minute {
            lemma_padded_sorts(left.minute as nat, right.minute as nat, 2);
            lemma_block_sorts(a, b, 14, 16);
        } else {
            lemma_take_further(a, b, 14, 16);
            lemma_same_separator(a, b, 16);
            lemma_padded_sorts(left.second as nat, right.second as nat, 2);
            lemma_block_sorts(a, b, 17, 19);
        }
    }
}

proof fn lemma_same_separator(left: Seq<char>, right: Seq<char>, i: int)
    requires
        0 <= i < left.len(),
        i < right.len(),
        left.take(i) == right.take(i),
        left[i] == right[i],
    ensures
        left.take(i + 1) == right.take(i + 1),
{
    assert(left.take(i + 1) =~= left.take(i).push(left[i]));
    assert(right.take(i + 1) =~= right.take(i).push(right[i]));
}

proof fn lemma_timestamp_blocks(local: LocalTime)
    requires
        local.wf(),
        local.year >= 0,
    ensures
        ({
            let text = timestamp_text(local);
            &&& text.len() == 19
            &&& text.subrange(0, 4) == padded(local.year as nat, 4)
            &&& text[4] == '-'
            &&& text.subrange(5, 7) == padded(local.month as nat, 2)
            &&& text[7] == '-'
            &&& text.subrange(8, 10) == padded(local.day as nat, 2)
            &&& text[10] == ' '
            &&& text.subrange(11, 13) == padded(local.hour as nat, 2)
            &&& text[13] == ':'
            &&& text.subrange(14, 16) == padded(local.minute as nat, 2)
            &&& text[16] == ':'
            &&& text.subrange(17, 19) == padded(local.second as nat, 2)
        }),
        padded(local.year as nat, 4).len() == 4,
        padded(local.month as nat, 2).len() == 2,
        padded(local.day as nat, 2).len() == 2,
        padded(local.hour as nat, 2).len() == 2,
        padded(local.minute as nat, 2).len() == 2,
        padded(local.second as nat, 2).len() == 2,
{
    lemma_timestamp_parts(local);
    lemma_padded_len(local.year as nat, 4);
    lemma_padded_len(local.month as nat, 2);
    lemma_padded_len(local.day as nat, 2);
    lemma_padded_len(local.hour as nat, 2);
    lemma_padded_len(local.minute as nat, 2);
    lemma_padded_len(local.second as nat, 2);
    let text = timestamp_text(local);
    assert(text.subrange(0, 4) =~= text.take(4));
}

/// No two destinations share a file.
pub proof fn each_destination_has_its_own_file(left: Destination, right: Destination)
    requires
        left.file() == right.file(),
    ensures
        left == right,
{
    reveal_strlit("info.log");
    reveal_strlit("warn.log");
    reveal_strlit("error.log");
    reveal_strlit("api.log");
    reveal_strlit("slow.log");
    reveal_strlit("fallback.log");
    assert("info.log"@[0] == 'i' && "warn.log"@[0] == 'w' && "error.log"@[0] == 'e');
    assert("api.log"@[0] == 'a' && "slow.log"@[0] == 's' && "fallback.log"@[0] == 'f');
}

/// Only the dedicated targets lead to the dedicated files, whatever the level;
/// any other event goes to the file of its level, and its level is its label.
pub proof fn only_dedicated_targets_reach_dedicated_files(target: Seq<char>, level: Level)
    ensures
        dedicated(target) <==> (route(target, level) is Api || route(target, level) is Slow
            || route(target, level) is Fallback),
        !dedicated(target) ==> {
            &&& label(target, level) == level.name()
            &&& route(target, level) is Error <==> level is Error
            &&& route(target, level) is Warn <==> level is Warn
            &&& route(target, level) is Info <==> (level is Info || level is Debug
                || level is Trace)
        },
{
    reveal_strlit("breeze.api");
    reveal_strlit("breeze.slow");
    reveal_strlit("breeze.fallback");
}

/// Whatever the level, the dedicated targets and nothing else lead to their files, and
/// every other event goes to the file of its level.
pub proof fn targets_decide_before_levels(target: Seq<char>, level: Level)
    ensures
        route(target, level) is Api <==> target == "breeze.api"@,
        route(target, level) is Slow <==> target == "breeze.slow"@,
        route(target, level) is Fallback <==> target == "breeze.fallback"@,
        route(target, level) is Error <==> !dedicated(target) && level is Error,
        route(target, level) is Warn <==> !dedicated(target) && level is Warn,
        route(target, level) is Info <==> !dedicated(target) && !(level is Error) && !(
        level is Warn),
        dedicated(target) <==> target == "breeze.api"@ || target == "breeze.slow"@ || target
            == "breeze.fallback"@,
{
    lemma_targets_differ();
}

/// Where a target is dedicated, neither file nor label depends on the level.
pub proof fn dedicated_targets_hide_the_level(target: Seq<char>, left: Level, right: Level)
    requires
        dedicated(target),
    ensures
        route(target, left) == route(target, right),
        label(target, left) == label(target, right),
{
}

/// The label is that of the dedicated target, and else the name of the level.
pub proof fn labels_follow_the_file(target: Seq<char>, level: Level)
    ensures
        route(target, level) is Api ==> label(target, level) == "API"@,
        route(target, level) is Slow ==> label(target, level) == "SLOW"@,
        route(target, level) is Fallback ==> label(target, level) == "FALLBACK"@,
        !dedicated(target) ==> label(target, level) == match level {
            Level::Trace => "TRACE"@,
            Level::Debug => "DEBUG"@,
            Level::Info => "INFO"@,
            Level::Warn => "WARN"@,
            Level::Error => "ERROR"@,
        },
{
    lemma_targets_differ();
}

proof fn lemma_targets_differ()
    ensures
        "breeze.api"@ != "breeze.slow"@,
        "breeze.api"@ != "breeze.fallback"@,
        "breeze.slow"@ != "breeze.fallback"@,
{
    reveal_strlit("breeze.api");
    reveal_strlit("breeze.slow");
    reveal_strlit("breeze.fallback");
    assert("breeze.api"@[7] == 'a' && "breeze.slow"@[7] == 's' && "breeze.fallback"@[7] == 'f');
}

/// The text of an event can be read back, whatever its level and target: it starts
/// with the timestamp, goes on with the label in brackets, and ends with exactly the
/// fields and a line feed.
pub proof fn events_read_back(
    local: LocalTime,
    target: Seq<char>,
    level: Level,
    fields: Seq<char>,
)
    ensures
        ({
            let text = event_text(local, target, level, fields);
            let name = label(target, level);
            let dated = timestamp_text(local).len() as int;
            let labelled = dated + 2 + name.len();
            &&& text.len() == labelled + 2 + fields.len() + 1
            &&& text.take(dated) == timestamp_text(local)
            &&& text[dated] == ' '
            &&& text[dated + 1] == '['
            &&& text.subrange(dated + 2, labelled) == name
            &&& text[labelled] == ']'
            &&& text[labelled + 1] == ' '
            &&& text.subrange(labelled + 2, text.len() - 1) == fields
            &&& text[text.len() - 1] == '\n'
        }),
{
    reveal_strlit(" [");
    reveal_strlit("] ");
    reveal_strlit("\n");
    let text = event_text(local, target, level, fields);
    let name = label(target, level);
    let dated = timestamp_text(local).len() as int;
    let labelled = dated + 2 + name.len();
    assert(text.take(dated) =~= timestamp_text(local));
    assert(text.subrange(dated + 2, labelled) =~= name);
    assert(text.subrange(labelled + 2, text.len() - 1) =~= fields);
}

/// Events that differ in what they say differ in their text.
pub proof fn events_tell_fields_apart(
    local: LocalTime,
    target: Seq<char>,
    level: Level,
    left: Seq<char>,
    right: Seq<char>,
)
    requires
        event_text(local, target, level, left) == event_text(local, target, level, right),
    ensures
        left == right,
{
    events_read_back(local, target, level, left);
    events_read_back(local, target, level, right);
}

/// A timestamp can be read back: the numbers between its separators are year, month,
/// day, hour, minute and second, each but the year of two digits.
pub proof fn timestamps_read_back(local: LocalTime)
    requires
        local.wf(),
    ensures
        ({
            let text = timestamp_text(local);
            let end = text.len() - 15;
            let year = text.take(end);
            &&& end >= 4
            &&& local.year >= 0 ==> all_digits(year) && number(year) == local.year && end == 4
            &&& local.year < 0 ==> year[0] == '-' && all_digits(year.skip(1)) && number(
                year.skip(1),
            ) == -local.year
            &&& local.year < 0 ==> end == 4 || year[1] != '0'
            &&& text[end] == '-'
            &&& reads(text.subrange(end + 1, end + 3), local.month as int)
            &&& text[end + 3] == '-'
            &&& reads(text.subrange(end + 4, end + 6), local.day as int)
            &&& text[end + 6] == ' '
            &&& reads(text.subrange(end + 7, end + 9), local.hour as int)
            &&& text[end + 9] == ':'
            &&& reads(text.subrange(end + 10, end + 12), local.minute as int)
            &&& text[end + 12] == ':'
            &&& reads(text.subrange(end + 13, end + 15), local.second as int)
        }),
{
    lemma_timestamp_parts(local);
    signed_numbers_read_back(local.year as int, 4);
    if local.year >= 0 {
        lemma_padded_len(local.year as nat, 4);
    } else {
        decimals_read_back((-local.year) as nat);
    }
    padded_numbers_read_back(local.month as nat, 2);
    padded_numbers_read_back(local.day as nat, 2);
    padded_numbers_read_back(local.hour as nat, 2);
    padded_numbers_read_back(local.minute as nat, 2);
    padded_numbers_read_back(local.second as nat, 2);
}

/// Whether a text consists of digits that read as a number.
pub open spec fn reads(text: Seq<char>, value: int) -> bool {
    all_digits(text) && number(text) == value
}

/// What is appended for an event is its text, behind what was there: it starts with the
/// timestamp and ends with what the event says and a line feed, whatever its level.
pub proof fn events_are_appended(timestamp: LocalTime, metadata: Metadata<'_>, fields: &str)
    ensures
        forall|writer: &mut String| #[trigger]
            call_ensures(write_event, (writer, &timestamp, &metadata, fields), ()) ==> {
                let added = final(writer)@.skip((*writer)@.len() as int);
                &&& final(writer)@ == (*writer)@ + added
                &&& added == event_text(timestamp, metadata.target@, metadata.level, fields@)
                &&& added.take(timestamp_text(timestamp).len() as int) == timestamp_text(timestamp)
                &&& added.skip(added.len() - fields@.len() - 1) == fields@.push('\n')
            },
        forall|writer: &mut String| #[trigger]
            call_ensures(write_timestamp, (writer, &timestamp), ()) ==> final(writer)@
                == (*writer)@ + timestamp_text(timestamp),
{
    assert forall|writer: &mut String| #[trigger]
        call_ensures(write_event, (writer, &timestamp, &metadata, fields), ()) implies {
        let added = final(writer)@.skip((*writer)@.len() as int);
        &&& final(writer)@ == (*writer)@ + added
        &&& added == event_text(timestamp, metadata.target@, metadata.level, fields@)
        &&& added.take(timestamp_text(timestamp).len() as int) == timestamp_text(timestamp)
        &&& added.skip(added.len() - fields@.len() - 1) == fields@.push('\n')
    } by {
        let text = event_text(timestamp, metadata.target@, metadata.level, fields@);
        events_read_back(timestamp, metadata.target@, metadata.level, fields@);
        assert(final(writer)@.skip((*writer)@.len() as int) =~= text);
        let labelled = timestamp_text(timestamp).len() as int + 2 + label(
            metadata.target@,
            metadata.level,
        ).len();
        assert(text.subrange(labelled + 2, text.len() - 1) == fields@);
        assert forall|i: int| 0 <= i < fields@.len() implies #[trigger] text.skip(
            text.len() - fields@.len() - 1,
        )[i] == fields@[i] by {
            assert(text.subrange(labelled + 2, text.len() - 1)[i] == fields@[i]);
        }
        assert(text.skip(text.len() - fields@.len() - 1) =~= fields@.push('\n'));
    }
}

/// Label and file of an event follow from its target and its level.
pub proof fn metadata_decide_label_and_file(
    metadata: Metadata<'_>,
    labelled: &'static str,
    destination: Destination,
    own_file: bool,
)
    requires
        call_ensures(event_label, (&metadata,), labelled),
        call_ensures(Destination::for_metadata, (&metadata,), destination),
        call_ensures(is_dedicated_target, (metadata.target,), own_file),
    ensures
        destination is Api <==> metadata.target@ == "breeze.api"@,
        destination is Slow <==> metadata.target@ == "breeze.slow"@,
        destination is Fallback <==> metadata.target@ == "breeze.fallback"@,
        own_file <==> destination is Api || destination is Slow || destination is Fallback,
        !own_file ==> (destination is Error <==> metadata.level is Error),
        !own_file ==> (destination is Warn <==> metadata.level is Warn),
        labelled@ == label(metadata.target@, metadata.level),
{
    targets_decide_before_levels(metadata.target@, metadata.level);
}

/// Levels are called by their names, and no two alike.
pub proof fn levels_are_called_by_their_names(level: Level, name: &'static str)
    requires
        call_ensures(Level::as_str, (level,), name),
    ensures
        level is Trace <==> name@ == "TRACE"@,
        level is Debug <==> name@ == "DEBUG"@,
        level is Info <==> name@ == "INFO"@,
        level is Warn <==> name@ == "WARN"@,
        level is Error <==> name@ == "ERROR"@,
{
    reveal_strlit("TRACE");
    reveal_strlit("DEBUG");
    reveal_strlit("INFO");
    reveal_strlit("WARN");
    reveal_strlit("ERROR");
    assert("TRACE"@[0] == 'T' && "DEBUG"@[0] == 'D' && "INFO"@[0] == 'I' && "WARN"@[0] == 'W'
        && "ERROR"@[0] == 'E');
}

/// Files are named after what goes into them, and every destination is handled once.
pub proof fn files_are_named_after_their_lines(
    destination: Destination,
    name: &'static str,
    all: Vec<Destination>,
)
    requires
        call_ensures(Destination::file_name, (destination,), name),
        call_ensures(Destination::all, (), all),
    ensures
        destination is Info <==> name@ == "info.log"@,
        destination is Warn <==> name@ == "warn.log"@,
        destination is Error <==> name@ == "error.log"@,
        destination is Api <==> name@ == "api.log"@,
        destination is Slow <==> name@ == "slow.log"@,
        destination is Fallback <==> name@ == "fallback.log"@,
        all@.contains(destination),
        all@.no_duplicates(),
        all@.len() == 6,
        all@[0] is Info && all@[1] is Warn && all@[2] is Error,
        all@[3] is Api && all@[4] is Slow && all@[5] is Fallback,
{
    reveal_strlit("info.log");
    reveal_strlit("warn.log");
    reveal_strlit("error.log");
    reveal_strlit("api.log");
    reveal_strlit("slow.log");
    reveal_strlit("fallback.log");
    assert("info.log"@[0] == 'i' && "warn.log"@[0] == 'w' && "error.log"@[0] == 'e');
    assert("api.log"@[0] == 'a' && "slow.log"@[0] == 's' && "fallback.log"@[0] == 'f');
    assert(all@[0] is Info && all@[1] is Warn && all@[2] is Error);
    assert(all@[3] is Api && all@[4] is Slow && all@[5] is Fallback);
}

} // verus!
