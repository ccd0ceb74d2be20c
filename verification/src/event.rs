//! One event on its way to the queue.

use brz_ds::EphemeralBytesArena;
use vstd::prelude::*;
use vstd::slice::slice_subrange;

use crate::config::OverflowPolicy;
use crate::format::Destination;
use crate::hint::{at_most, LineCapacityHint};
use crate::line::{length_gives_room, lines_extend_themselves, SegmentedLine};

verus! {

/// What a line that was cut short ends with.
pub open spec fn truncated_suffix() -> Seq<u8> {
    seq![46u8, 46, 46, 91, 116, 114, 117, 110, 99, 97, 116, 101, 100, 93, 10]
}

/// The bytes of `...[truncated]` and a line feed.
pub const TRUNCATED_SUFFIX: [u8; 15] = [
    46, 46, 46, 91, 116, 114, 117, 110, 99, 97, 116, 101, 100, 93, 10,
];

/// A finished line and the file it goes to.
pub struct QueuedLine {
    pub destination: Destination,
    pub bytes: SegmentedLine,
}

/// Collects the text of one event.
pub struct EventWriter<'a> {
    pub destination: Destination,
    pub max_line_bytes: usize,
    pub arena: &'a EphemeralBytesArena,
    pub line: SegmentedLine,
    pub truncated: bool,
}

/// The first bytes of a text, as far as the limit goes.
pub open spec fn limited(text: Seq<u8>, limit: nat) -> Seq<u8> {
    text.take(at_most(limit as int, text.len() as int))
}

/// A text cut short: as much of it as leaves room for the mark, and the mark.
pub open spec fn marked(text: Seq<u8>, limit: nat) -> Seq<u8> {
    limited(
        text,
        if limit < truncated_suffix().len() {
            0
        } else {
            (limit - truncated_suffix().len()) as nat
        },
    ) + truncated_suffix()
}

/// The line that is queued for what an event wrote: nothing for nothing; the
/// text itself, with a line feed where it lacks one; or, where that does not
/// fit, the text cut short and marked.
pub open spec fn queued_line(text: Seq<u8>, limit: nat) -> Option<Seq<u8>> {
    if text.len() == 0 || limit == 0 {
        None
    } else if text.len() <= limit && text.last() == 10u8 {
        Some(text)
    } else if text.len() < limit {
        Some(text.push(10u8))
    } else {
        Some(marked(text, limit))
    }
}

impl<'a> EventWriter<'a> {
    /// The line keeps to the limit, and only a line at the limit was cut short.
    pub open spec fn wf(&self) -> bool {
        &&& self.line.wf()
        &&& self.line@.len() <= self.max_line_bytes
        &&& self.truncated ==> self.line@.len() == self.max_line_bytes
    }

    /// Whether the line has to be cut short and marked.
    pub open spec fn needs_mark(&self) -> bool {
        self.truncated || (self.line@.last() != 10u8 && self.line@.len() == self.max_line_bytes)
    }

    /// How many bytes of the line are kept where it is marked.
    pub open spec fn kept_bytes(&self) -> int {
        at_most(
            if self.max_line_bytes < truncated_suffix().len() {
                0
            } else {
                self.max_line_bytes - truncated_suffix().len()
            },
            self.line@.len() as int,
        )
    }

    /// Whether the end of the line takes one more segment: the mark does not fit
    /// behind what is kept, or the line feed does not fit behind the line.
    pub open spec fn end_overflows(&self) -> bool {
        if self.needs_mark() {
            truncated_suffix().len() > self.line.room_at(self.kept_bytes())
        } else {
            self.line@.last() != 10u8 && self.line.room() < 1
        }
    }

    /// Whether the line so far is what has to be kept of `text`.
    pub open spec fn holds(&self, text: Seq<u8>) -> bool {
        &&& self.line@ == limited(text, self.max_line_bytes as nat)
        &&& self.truncated == (text.len() > self.max_line_bytes)
    }

    /// A writer that has written nothing.
    pub fn new(
        destination: Destination,
        arena: &'a EphemeralBytesArena,
        max_line_bytes: usize,
        initial_capacity: usize,
    ) -> (r: Self)
        requires
            0 < initial_capacity <= isize::MAX,
        ensures
            r.wf(),
            r.holds(Seq::empty()),
            r.destination == destination,
            r.max_line_bytes == max_line_bytes,
            r.arena == arena,
            !r.line.ever_overflowed,
            r.line.sizes().len() == 1,
            r.line.sizes()[0].answers(initial_capacity as nat),
    {
        let line = SegmentedLine::new(arena, initial_capacity);
        assert(line@ =~= limited(Seq::empty(), max_line_bytes as nat));
        EventWriter { destination, max_line_bytes, arena, line, truncated: false }
    }

    /// Takes in bytes as far as the limit goes, and remembers whether it went
    /// far enough. All bytes count as written either way.
    pub fn write(&mut self, bytes: &[u8]) -> (r: usize)
        requires
            old(self).wf(),
        ensures
            r == bytes@.len(),
            final(self).wf(),
            final(self).line@ == old(self).line@ + limited(
                bytes@,
                (old(self).max_line_bytes - old(self).line@.len()) as nat,
            ),
            final(self).truncated == (old(self).truncated || bytes@.len() > old(
                self,
            ).max_line_bytes - old(self).line@.len()),
            final(self).destination == old(self).destination,
            final(self).max_line_bytes == old(self).max_line_bytes,
            final(self).arena == old(self).arena,
            final(self).line.extends(&old(self).line),
            final(self).line.ever_overflowed == (old(self).line.ever_overflowed || limited(
                bytes@,
                (old(self).max_line_bytes - old(self).line@.len()) as nat,
            ).len() > old(self).line.room()),
            forall|text: Seq<u8>| old(self).holds(text) ==> #[trigger] final(self).holds(text + bytes@),
    {
        let ghost before = *self;
        let available = self.max_line_bytes - self.line.len();
        let accepted: usize = if available < bytes.len() {
            available
        } else {
            bytes.len()
        };
        self.line.append(self.arena, slice_subrange(bytes, 0, accepted));
        self.truncated = self.truncated || accepted < bytes.len();
        proof {
            assert forall|text: Seq<u8>| before.holds(text) implies #[trigger] self.holds(
                text + bytes@,
            ) by {
                assert(self.line@ =~= limited(text + bytes@, self.max_line_bytes as nat));
            }
        }
        bytes.len()
    }

    /// Ends the line: cut short and marked, or with a line feed.
    fn finish_line(&mut self)
        requires
            old(self).wf(),
            old(self).line@.len() > 0,
        ensures
            final(self).line.wf(),
            final(self).destination == old(self).destination,
            old(self).needs_mark() ==> final(self).line@ == marked(
                old(self).line@,
                old(self).max_line_bytes as nat,
            ),
            old(self).needs_mark() ==> final(self).line.extends_start(
                &old(self).line,
                old(self).kept_bytes(),
            ),
            !old(self).needs_mark() ==> final(self).line.extends(&old(self).line),
            final(self).line.ever_overflowed == (old(self).line.ever_overflowed || old(
                self,
            ).end_overflows()),
            !old(self).truncated && old(self).line@.last() == 10u8 ==> final(self).line@ == old(
                self,
            ).line@,
            !old(self).truncated && old(self).line@.last() != 10u8 && old(self).line@.len() < old(
                self,
            ).max_line_bytes ==> final(self).line@ == old(self).line@.push(10u8),
    {
        proof {
            lines_extend_themselves(self.line);
        }
        if self.truncated {
            self.mark_truncated();
        } else if !self.line.ends_with_newline() {
            if self.line.len() < self.max_line_bytes {
                let newline: [u8; 1] = [10];
                let ghost text = self.line@;
                self.line.append(self.arena, newline.as_slice());
                assert(self.line@ =~= text.push(10u8));
            } else {
                self.mark_truncated();
            }
        }
    }

    fn mark_truncated(&mut self)
        requires
            old(self).wf(),
        ensures
            final(self).line.wf(),
            final(self).destination == old(self).destination,
            final(self).line@ == marked(old(self).line@, old(self).max_line_bytes as nat),
            final(self).line.ever_overflowed == (old(self).line.ever_overflowed
                || truncated_suffix().len() > old(self).line.room_at(old(self).kept_bytes())),
            final(self).line.extends_start(&old(self).line, old(self).kept_bytes()),
    {
        let suffix = TRUNCATED_SUFFIX;
        let retained: usize = if self.max_line_bytes < suffix.len() {
            0
        } else {
            self.max_line_bytes - suffix.len()
        };
        let ghost text = self.line@;
        let ghost before = self.line;
        self.line.truncate(retained);
        assert(before.extends(&self.line));
        self.line.append(self.arena, suffix.as_slice());
        proof {
            assert(suffix@ =~= truncated_suffix());
            assert(self.line@ =~= marked(text, self.max_line_bytes as nat));
        }
    }

    /// Ends the event. What it wrote, if anything, becomes a line for the queue.
    pub fn finish(self) -> (r: Option<QueuedLine>)
        requires
            self.wf(),
        ensures
            r is Some <==> self.line@.len() > 0,
            r matches Some(queued) ==> {
                &&& queued.bytes.wf()
                &&& queued.destination == self.destination
                &&& queued.bytes.ever_overflowed == (self.line.ever_overflowed
                    || self.end_overflows())
                &&& !self.needs_mark() ==> queued.bytes.extends(&self.line)
                &&& self.needs_mark() ==> queued.bytes.extends_start(&self.line, self.kept_bytes())
                &&& forall|text: Seq<u8>| #[trigger]
                    self.holds(text) ==> queued_line(text, self.max_line_bytes as nat) == Some(
                        queued.bytes@,
                    )
            },
            r is None ==> forall|text: Seq<u8>| #[trigger]
                self.holds(text) ==> queued_line(text, self.max_line_bytes as nat) is None,
    {
        if self.line.is_empty() {
            return None;
        }
        let ghost before = self;
        let mut writer = self;
        writer.finish_line();
        proof {
            assert forall|text: Seq<u8>| #[trigger] before.holds(text) implies queued_line(
                text,
                before.max_line_bytes as nat,
            ) == Some(writer.line@) by {
                let limit = before.max_line_bytes as nat;
                if text.len() <= limit {
                    assert(before.line@ =~= text);
                }
                assert(marked(before.line@, limit) =~= marked(text, limit));
            }
        }
        Some(QueuedLine { destination: writer.destination, bytes: writer.line })
    }
}

impl LineCapacityHint {
    /// Takes a finished line into account.
    pub fn observe_line(&mut self, line: &SegmentedLine)
        requires
            old(self).wf(),
            line.wf(),
        ensures
            final(self).wf(),
            *final(self) == old(self).after_line(line@.len(), line.ever_overflowed),
    {
        self.observe(line.len(), line.overflowed());
    }
}

/// A writer always holds what has to be kept of some text.
pub proof fn writers_hold_some_text(writer: EventWriter<'_>)
    requires
        writer.wf(),
    ensures
        exists|text: Seq<u8>| #[trigger] writer.holds(text),
{
    let line = writer.line@;
    if writer.truncated {
        let text = line.push(0u8);
        assert(limited(text, writer.max_line_bytes as nat) =~= line);
        assert(writer.holds(text));
    } else {
        assert(limited(line, writer.max_line_bytes as nat) =~= line);
        assert(writer.holds(line));
    }
}

/// Every queued line ends with a line feed and, where the limit leaves room for
/// the mark, keeps to the limit.
pub proof fn queued_lines_are_bounded(text: Seq<u8>, limit: nat)
    requires
        queued_line(text, limit) is Some,
    ensures
        queued_line(text, limit)->0.len() > 0,
        queued_line(text, limit)->0.last() == 10u8,
        limit >= truncated_suffix().len() ==> queued_line(text, limit)->0.len() <= limit,
{
    assert(marked(text, limit).last() == truncated_suffix().last());
}

/// A text that fits with its line feed is queued whole; one that does not is cut
/// to exactly the limit and carries the mark.
pub proof fn long_lines_are_marked(text: Seq<u8>, limit: nat)
    requires
        limit >= truncated_suffix().len(),
        text.len() > 0,
    ensures
        text.len() < limit ==> {
            &&& text.is_prefix_of(queued_line(text, limit)->0)
            &&& queued_line(text, limit)->0.len() <= text.len() + 1
        },
        text.len() > limit ==> {
            &&& queued_line(text, limit)->0.len() == limit
            &&& truncated_suffix().is_suffix_of(queued_line(text, limit)->0)
            &&& queued_line(text, limit)->0.take(limit - truncated_suffix().len()) == text.take(
                limit - truncated_suffix().len(),
            )
        },
{
    let line = queued_line(text, limit)->0;
    if text.len() < limit {
        assert(text =~= line.subrange(0, text.len() as int));
    }
    if text.len() > limit {
        let kept = limit - truncated_suffix().len();
        assert(line.take(kept) =~= text.take(kept));
        assert(truncated_suffix() =~= line.subrange(kept, line.len() as int));
    }
}

/// Why a line did not get into the queue.
#[derive(Debug, Clone, Copy, PartialEq, Eq, Structural)]
pub enum EnqueueFailure {
    Full,
    Disconnected,
}

impl OverflowPolicy {
    /// Whether a producer waits for room in the queue.
    pub fn waits_for_room(self) -> (r: bool)
        ensures
            r == (self is Block),
    {
        match self {
            OverflowPolicy::DropNewest => false,
            OverflowPolicy::Block => true,
        }
    }
}

/// How much handing over one line adds to the counts of lost lines.
#[derive(Debug, Clone, Copy, PartialEq, Eq, Structural)]
pub struct DropCount {
    pub dropped_lines: u64,
    pub queue_dropped: u64,
}

impl DropCount {
    /// A line that did not get into the queue is lost; it counts against the
    /// queue only where that was full.
    pub fn of(failure: Option<EnqueueFailure>) -> (r: Self)
        ensures
            r.dropped_lines == (if failure is Some { 1u64 } else { 0u64 }),
            r.queue_dropped == (if failure == Some(EnqueueFailure::Full) { 1u64 } else { 0u64 }),
    {
        match failure {
            None => DropCount { dropped_lines: 0, queue_dropped: 0 },
            Some(EnqueueFailure::Full) => DropCount { dropped_lines: 1, queue_dropped: 1 },
            Some(EnqueueFailure::Disconnected) => DropCount { dropped_lines: 1, queue_dropped: 0 },
        }
    }
}

/// Whether bytes are `...[truncated]` and a line feed.
pub open spec fn is_truncation_mark(bytes: Seq<u8>) -> bool {
    &&& bytes.len() == 15
    &&& bytes[0] == 46 && bytes[1] == 46 && bytes[2] == 46
    &&& bytes[3] == 91 && bytes[4] == 116 && bytes[5] == 114 && bytes[6] == 117
    &&& bytes[7] == 110 && bytes[8] == 99 && bytes[9] == 97 && bytes[10] == 116
    &&& bytes[11] == 101 && bytes[12] == 100 && bytes[13] == 93 && bytes[14] == 10
}

/// Whatever an event wrote, its line is that text with a line feed at its end, where
/// that fits; else it is the start of the text and the mark, as long as the limit where
/// that has room for the mark, and the mark alone where it has none.
pub proof fn lines_are_whole_or_marked(text: Seq<u8>, limit: nat)
    ensures
        queued_line(text, limit) is None <==> text.len() == 0 || limit == 0,
        queued_line(text, limit) matches Some(line) ==> {
            let ended = text[text.len() - 1] == 10;
            let fits = text.len() < limit || (text.len() == limit && ended);
            &&& fits && ended ==> line == text
            &&& fits && !ended ==> line.len() == text.len() + 1 && line.take(text.len() as int)
                == text && line[text.len() as int] == 10
            &&& !fits && limit >= 15 ==> {
                &&& line.len() == limit
                &&& line.take(limit - 15) == text.take(limit - 15)
                &&& is_truncation_mark(line.skip(limit - 15))
            }
            &&& !fits && limit < 15 ==> is_truncation_mark(line)
        },
{
    if queued_line(text, limit) is Some {
        let line = queued_line(text, limit)->0;
        let ended = text[text.len() - 1] == 10;
        let fits = text.len() < limit || (text.len() == limit && ended);
        if fits && !ended {
            assert(line.take(text.len() as int) =~= text);
        }
        if !fits {
            assert(line == marked(text, limit));
            if limit >= 15 {
                assert(line.take(limit - 15) =~= text.take(limit - 15));
                assert(line.skip(limit - 15) =~= truncated_suffix());
            } else {
                assert(line =~= truncated_suffix());
            }
        }
    }
}

/// A writer keeps the start of what is written, all of it while the limit allows and no
/// more than that, and knows whether there was more.
pub proof fn writers_keep_the_start(writer: EventWriter<'_>, text: Seq<u8>)
    requires
        writer.wf(),
        writer.holds(text),
    ensures
        writer.line@.is_prefix_of(text),
        text.len() <= writer.max_line_bytes ==> writer.line@ == text && !writer.truncated,
        text.len() > writer.max_line_bytes ==> writer.line@.len() == writer.max_line_bytes
            && writer.truncated,
{
    assert(writer.line@ =~= text.subrange(0, writer.line@.len() as int));
    if text.len() <= writer.max_line_bytes {
        assert(writer.line@ =~= text);
    }
}

/// A finished event is queued for its destination with the line of what it wrote.
pub proof fn finished_events_are_queued(
    writer: EventWriter<'_>,
    text: Seq<u8>,
    queued: Option<QueuedLine>,
)
    requires
        writer.wf(),
        writer.holds(text),
        call_ensures(EventWriter::finish, (writer,), queued),
    ensures
        queued is None <==> text.len() == 0 || writer.max_line_bytes == 0,
        queued matches Some(line) ==> {
            let bytes = line.bytes@;
            let ended = text[text.len() - 1] == 10;
            let limit = writer.max_line_bytes;
            let fits = text.len() < limit || (text.len() == limit && ended);
            &&& line.destination == writer.destination
            &&& bytes[bytes.len() - 1] == 10
            &&& fits ==> bytes == text || bytes == text.push(10)
            &&& !fits && limit >= 15 ==> bytes.len() == limit && bytes.take(limit - 15)
                == text.take(limit - 15)
        },
{
    lines_are_whole_or_marked(text, writer.max_line_bytes as nat);
    if queued is Some {
        queued_lines_are_bounded(text, writer.max_line_bytes as nat);
        let bytes = queued->0.bytes@;
        if bytes.len() == text.len() + 1 && bytes.take(text.len() as int) == text {
            assert(bytes =~= text.push(bytes[text.len() as int]));
        }
    }
}

/// A line is counted as lost exactly where it did not get into the queue, and against
/// the queue exactly where that was full.
pub proof fn lost_lines_are_counted(failure: Option<EnqueueFailure>, count: DropCount)
    requires
        call_ensures(DropCount::of, (failure,), count),
    ensures
        count.dropped_lines == 1 <==> failure is Some,
        count.dropped_lines == 0 <==> failure is None,
        count.queue_dropped == 1 <==> failure == Some(EnqueueFailure::Full),
        count.queue_dropped == 0 <==> failure != Some(EnqueueFailure::Full),
        count.queue_dropped <= count.dropped_lines,
{
}

/// Producers wait for room exactly where no line may be dropped.
pub proof fn only_blocking_producers_wait(policy: OverflowPolicy, waits: bool)
    requires
        call_ensures(OverflowPolicy::waits_for_room, (policy,), waits),
    ensures
        waits <==> policy == OverflowPolicy::Block,
        !waits <==> policy == OverflowPolicy::DropNewest,
{
}

/// The end of a line takes one more segment exactly where the room that is left is
/// less than the end needs.
pub proof fn ends_overflow_where_they_do_not_fit(writer: EventWriter<'_>)
    requires
        writer.wf(),
        writer.line@.len() > 0,
    ensures
        ({
            let len = writer.line@.len() as int;
            let limit = writer.max_line_bytes as int;
            let ended = writer.line@[len - 1] == 10;
            let cut = writer.truncated || (!ended && len == limit);
            let kept = if limit < 15 {
                0
            } else if len < limit - 15 {
                len
            } else {
                limit - 15
            };
            &&& cut ==> (writer.end_overflows() <==> writer.line.room_at(kept) < 15)
            &&& !cut && !ended ==> (writer.end_overflows() <==> writer.line.room() == 0)
            &&& !cut && ended ==> !writer.end_overflows()
        }),
{
    length_gives_room(writer.line);
    assert(writer.line.room() >= 0) by {
        let n = writer.line.parts().len() as int;
        assert(writer.line.parts()[n - 1].len() <= writer.line.sizes()[n - 1].capacity);
    }
}

/// Writing takes bytes in at the end of the line as far as the limit goes, and counts
/// all of them as written; what was there stays.
pub proof fn writing_adds_at_the_end(bytes: &[u8], written: usize)
    ensures
        forall|changing: &mut EventWriter<'_>| #[trigger]
            call_ensures(EventWriter::write, (changing, bytes), written) ==> {
                let before = (*changing).line@;
                let after = final(changing).line@;
                let room = (*changing).max_line_bytes - before.len();
                &&& written == bytes@.len()
                &&& bytes@.len() <= room ==> after == before + bytes@
                &&& bytes@.len() > room ==> after == before + bytes@.take(room)
                    && final(changing).truncated
                &&& bytes@.len() <= room ==> final(changing).truncated == (*changing).truncated
                &&& final(changing).destination == (*changing).destination
                &&& final(changing).max_line_bytes == (*changing).max_line_bytes
            },
{
    assert forall|changing: &mut EventWriter<'_>| #[trigger]
        call_ensures(EventWriter::write, (changing, bytes), written) implies {
        let before = (*changing).line@;
        let after = final(changing).line@;
        let room = (*changing).max_line_bytes - before.len();
        &&& written == bytes@.len()
        &&& bytes@.len() <= room ==> after == before + bytes@
        &&& bytes@.len() > room ==> after == before + bytes@.take(room)
            && final(changing).truncated
        &&& bytes@.len() <= room ==> final(changing).truncated == (*changing).truncated
        &&& final(changing).destination == (*changing).destination
        &&& final(changing).max_line_bytes == (*changing).max_line_bytes
    } by {
        assert(bytes@.take(bytes@.len() as int) =~= bytes@);
    }
}

/// A new writer holds nothing, for the destination and the limit that it was made with.
pub proof fn new_writers_hold_nothing(
    destination: Destination,
    arena: &EphemeralBytesArena,
    limit: usize,
    capacity: usize,
    writer: EventWriter<'_>,
)
    requires
        0 < capacity <= isize::MAX,
        call_ensures(EventWriter::new, (destination, arena, limit, capacity), writer),
    ensures
        writer.line@.len() == 0,
        !writer.truncated,
        !writer.line.ever_overflowed,
        writer.destination == destination,
        writer.max_line_bytes == limit,
        !writer.line.sizes()[0].on_heap ==> writer.line.sizes()[0].capacity == capacity,
{
    writers_keep_the_start(writer, Seq::empty());
}

/// A finished line teaches the hint by its length and by whether it overflowed.
pub proof fn hints_learn_from_finished_lines(line: SegmentedLine)
    requires
        line.wf(),
    ensures
        forall|changing: &mut LineCapacityHint| #[trigger]
            call_ensures(LineCapacityHint::observe_line, (changing, &line), ()) ==> *final(changing)
                == (*changing).after_line(line@.len(), line.ever_overflowed),
{
}

/// The record of overflow is kept, and a line that has more than one segment has it.
pub proof fn overflow_is_on_record(writer: EventWriter<'_>, queued: Option<QueuedLine>)
    requires
        writer.wf(),
        call_ensures(EventWriter::finish, (writer,), queued),
    ensures
        queued matches Some(line) ==> {
            &&& writer.line.ever_overflowed ==> line.bytes.ever_overflowed
            &&& line.bytes.sizes().len() > 1 ==> line.bytes.ever_overflowed
            &&& line.bytes.ever_overflowed <==> writer.line.ever_overflowed
                || writer.end_overflows()
        },
{
}

} // verus!
