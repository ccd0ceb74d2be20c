//! What a batch of lines puts into each file.

use vstd::prelude::*;
use vstd::seq_lib::lemma_flatten_concat;
use vstd::slice::slice_subrange;

use crate::event::QueuedLine;
use crate::format::Destination;
use crate::line::{filled_parts_are_the_line, lemma_flatten_last};

verus! {

/// The most slices that one vectored write carries.
pub const MAX_VECTORED_SLICES: usize = 1024;

/// The bytes of slices, one after the other.
pub open spec fn slice_bytes(slices: Seq<&[u8]>) -> Seq<u8>
    decreases slices.len(),
{
    if slices.len() == 0 {
        Seq::empty()
    } else {
        slice_bytes(slices.drop_last()) + slices.last()@
    }
}

/// The bytes of groups of slices, one after the other.
pub open spec fn group_bytes(groups: Seq<Vec<&[u8]>>) -> Seq<u8>
    decreases groups.len(),
{
    if groups.len() == 0 {
        Seq::empty()
    } else {
        group_bytes(groups.drop_last()) + slice_bytes(groups.last()@)
    }
}

/// What slices hold, each by itself.
pub open spec fn slice_parts(slices: Seq<&[u8]>) -> Seq<Seq<u8>> {
    slices.map_values(|slice: &[u8]| slice@)
}

/// What the slices of groups hold, each by itself, one group after the other.
pub open spec fn group_parts(groups: Seq<Vec<&[u8]>>) -> Seq<Seq<u8>>
    decreases groups.len(),
{
    if groups.len() == 0 {
        Seq::empty()
    } else {
        group_parts(groups.drop_last()) + slice_parts(groups.last()@)
    }
}

/// The segments of the lines that go to a destination, in order.
pub open spec fn destination_parts(lines: Seq<QueuedLine>, destination: Destination) -> Seq<Seq<u8>>
    decreases lines.len(),
{
    if lines.len() == 0 {
        Seq::empty()
    } else if lines.last().destination == destination {
        destination_parts(lines.drop_last(), destination) + lines.last().bytes.filled_parts()
    } else {
        destination_parts(lines.drop_last(), destination)
    }
}

/// What lines put into the file of a destination: those that go there, in order.
pub open spec fn destination_bytes(lines: Seq<QueuedLine>, destination: Destination) -> Seq<u8>
    decreases lines.len(),
{
    if lines.len() == 0 {
        Seq::empty()
    } else if lines.last().destination == destination {
        destination_bytes(lines.drop_last(), destination) + lines.last().bytes@
    } else {
        destination_bytes(lines.drop_last(), destination)
    }
}

/// Whether no slice is empty.
pub open spec fn all_filled(slices: Seq<&[u8]>) -> bool {
    forall|i: int| 0 <= i < slices.len() ==> (#[trigger] slices[i])@.len() > 0
}

/// Whether every group but the last is full, and that one holds something.
pub open spec fn grouped(groups: Seq<Vec<&[u8]>>) -> bool {
    &&& forall|i: int|
        0 <= i < groups.len() ==> 0 < (#[trigger] groups[i])@.len() <= MAX_VECTORED_SLICES
    &&& forall|i: int|
        0 <= i < groups.len() - 1 ==> (#[trigger] groups[i])@.len() == MAX_VECTORED_SLICES
    &&& forall|i: int| 0 <= i < groups.len() ==> all_filled(#[trigger] groups[i]@)
}

proof fn lemma_slice_bytes_push(slices: Seq<&[u8]>, slice: &[u8])
    ensures
        slice_bytes(slices.push(slice)) == slice_bytes(slices) + slice@,
{
    assert(slices.push(slice).drop_last() =~= slices);
}

proof fn lemma_group_parts_push(groups: Seq<Vec<&[u8]>>, group: Vec<&[u8]>)
    ensures
        group_parts(groups.push(group)) == group_parts(groups) + slice_parts(group@),
{
    assert(groups.push(group).drop_last() =~= groups);
}

proof fn lemma_slice_bytes_flatten(slices: Seq<&[u8]>)
    ensures
        slice_bytes(slices) == slice_parts(slices).flatten(),
    decreases slices.len(),
{
    let parts = slice_parts(slices);
    if slices.len() > 0 {
        lemma_slice_bytes_flatten(slices.drop_last());
        lemma_flatten_last(parts);
        assert(parts.drop_last() =~= slice_parts(slices.drop_last()));
    }
}

proof fn lemma_group_bytes_flatten(groups: Seq<Vec<&[u8]>>)
    ensures
        group_bytes(groups) == group_parts(groups).flatten(),
    decreases groups.len(),
{
    if groups.len() > 0 {
        lemma_group_bytes_flatten(groups.drop_last());
        lemma_slice_bytes_flatten(groups.last()@);
        lemma_flatten_concat(group_parts(groups.drop_last()), slice_parts(groups.last()@));
    }
}

proof fn lemma_destination_bytes_flatten(lines: Seq<QueuedLine>, destination: Destination)
    requires
        forall|i: int| 0 <= i < lines.len() ==> (#[trigger] lines[i]).bytes.wf(),
    ensures
        destination_bytes(lines, destination) == destination_parts(lines, destination).flatten(),
    decreases lines.len(),
{
    if lines.len() > 0 {
        let earlier = lines.drop_last();
        let line = lines[lines.len() - 1];
        assert forall|i: int| 0 <= i < earlier.len() implies (#[trigger] earlier[i]).bytes.wf() by {
            assert(lines[i].bytes.wf());
        }
        lemma_destination_bytes_flatten(earlier, destination);
        assert(line.bytes.wf());
        filled_parts_are_the_line(line.bytes);
        lemma_flatten_concat(destination_parts(earlier, destination), line.bytes.filled_parts());
    }
}

/// Groups that are being filled.
struct SliceGroups<'a> {
    full: Vec<Vec<&'a [u8]>>,
    open: Vec<&'a [u8]>,
}

impl<'a> SliceGroups<'a> {
    spec fn wf(&self) -> bool {
        &&& forall|i: int|
            0 <= i < self.full@.len() ==> (#[trigger] self.full@[i])@.len() == MAX_VECTORED_SLICES
        &&& forall|i: int| 0 <= i < self.full@.len() ==> all_filled(#[trigger] self.full@[i]@)
        &&& self.open@.len() < MAX_VECTORED_SLICES
        &&& all_filled(self.open@)
    }

    spec fn parts(&self) -> Seq<Seq<u8>> {
        group_parts(self.full@) + slice_parts(self.open@)
    }

    fn push(&mut self, slice: &'a [u8])
        requires
            old(self).wf(),
            slice@.len() > 0,
        ensures
            final(self).wf(),
            final(self).parts() == old(self).parts().push(slice@),
    {
        let ghost before = *self;
        self.open.push(slice);
        assert(slice_parts(self.open@) =~= slice_parts(before.open@).push(slice@));
        if self.open.len() == MAX_VECTORED_SLICES {
            let ghost filled = self.open;
            let mut group: Vec<&'a [u8]> = Vec::new();
            std::mem::swap(&mut group, &mut self.open);
            self.full.push(group);
            proof {
                lemma_group_parts_push(before.full@, filled);
            }
        }
        assert(self.parts() =~= before.parts().push(slice@));
    }
}

/// The slices that lines put into the file of a destination, in groups that one
/// vectored write can carry: the filled segments of the lines, uncut and in order.
pub fn vectored_groups<'a>(lines: &'a [QueuedLine], destination: Destination) -> (r: Vec<
    Vec<&'a [u8]>,
>)
    requires
        forall|i: int| 0 <= i < lines@.len() ==> (#[trigger] lines@[i]).bytes.wf(),
    ensures
        group_parts(r@) == destination_parts(lines@, destination),
        group_bytes(r@) == destination_bytes(lines@, destination),
        grouped(r@),
{
    let mut groups: SliceGroups<'a> = SliceGroups { full: Vec::new(), open: Vec::new() };
    let mut i: usize = 0;
    assert(groups.parts() =~= destination_parts(lines@.take(0), destination));
    while i < lines.len()
        invariant
            forall|i: int| 0 <= i < lines@.len() ==> (#[trigger] lines@[i]).bytes.wf(),
            i <= lines@.len(),
            groups.wf(),
            groups.parts() == destination_parts(lines@.take(i as int), destination),
        decreases lines@.len() - i,
    {
        let line = &lines[i];
        let ghost before = groups.parts();
        if line.destination == destination {
            let segments = line.bytes.segments();
            let mut j: usize = 0;
            assert(groups.parts() =~= before + slice_parts(segments@.take(0)));
            while j < segments.len()
                invariant
                    j <= segments@.len(),
                    all_filled(segments@),
                    groups.wf(),
                    groups.parts() == before + slice_parts(segments@.take(j as int)),
                decreases segments@.len() - j,
            {
                groups.push(segments[j]);
                j = j + 1;
                assert(groups.parts() =~= before + slice_parts(segments@.take(j as int)));
            }
            assert(segments@.take(j as int) =~= segments@);
        }
        proof {
            assert(lines@.take(i + 1).drop_last() =~= lines@.take(i as int));
        }
        i = i + 1;
    }
    assert(lines@.take(i as int) =~= lines@);
    let ghost whole = groups.parts();
    let SliceGroups { full, open } = groups;
    let mut r = full;
    if open.len() > 0 {
        r.push(open);
        proof {
            lemma_group_parts_push(full@, open);
        }
    }
    proof {
        assert(group_parts(r@) =~= whole);
        lemma_group_bytes_flatten(r@);
        lemma_destination_bytes_flatten(lines@, destination);
    }
    r
}

/// Lines that are written in two batches fill the files as in one.
pub proof fn batches_do_not_show(
    first: Seq<QueuedLine>,
    second: Seq<QueuedLine>,
    destination: Destination,
)
    ensures
        destination_bytes(first + second, destination) == destination_bytes(first, destination)
            + destination_bytes(second, destination),
    decreases second.len(),
{
    if second.len() == 0 {
        assert(first + second =~= first);
        assert(destination_bytes(first, destination) + destination_bytes(second, destination)
            =~= destination_bytes(first, destination));
    } else {
        batches_do_not_show(first, second.drop_last(), destination);
        assert((first + second).drop_last() =~= first + second.drop_last());
        assert((first + second).last() == second.last());
        assert(destination_bytes(first + second, destination) =~= destination_bytes(
            first,
            destination,
        ) + destination_bytes(second, destination));
    }
}

/// What a vectored write came to.
#[derive(Debug, Clone, Copy, PartialEq, Eq, Structural)]
pub enum WriteOutcome {
    Wrote(usize),
    Interrupted,
    Failed,
}

/// What is to be done after a vectored write.
#[derive(Debug, Clone, Copy, PartialEq, Eq, Structural)]
pub enum WriteStep {
    WriteAgain,
    Finished,
    NothingWritten,
    Failed,
}

/// Slices that are not written yet.
pub struct PendingWrite<'a> {
    pub slices: Vec<&'a [u8]>,
}

impl<'a> View for PendingWrite<'a> {
    type V = Seq<u8>;

    /// The bytes that are not written yet.
    open spec fn view(&self) -> Seq<u8> {
        slice_bytes(self.slices@)
    }
}

proof fn lemma_slice_bytes_from(slices: Seq<&[u8]>, first: int)
    requires
        0 <= first < slices.len(),
    ensures
        slice_bytes(slices.skip(first)) == slices[first]@ + slice_bytes(slices.skip(first + 1)),
    decreases slices.len(),
{
    let here = slices.skip(first);
    let next = slices.skip(first + 1);
    if next.len() == 0 {
        assert(here =~= Seq::empty().push(slices[first]));
        lemma_slice_bytes_push(Seq::empty(), slices[first]);
        assert(slice_bytes(here) =~= slices[first]@ + slice_bytes(next));
    } else {
        lemma_slice_bytes_from(slices.drop_last(), first);
        assert(here.drop_last() =~= slices.drop_last().skip(first));
        assert(next.drop_last() =~= slices.drop_last().skip(first + 1));
        assert(slice_bytes(here) =~= slices[first]@ + slice_bytes(next));
    }
}

proof fn lemma_skip_into(bytes: Seq<u8>, start: int, head: Seq<u8>, tail: Seq<u8>, cut: int)
    requires
        0 <= start <= bytes.len(),
        bytes.skip(start) == head + tail,
        0 <= cut <= head.len(),
    ensures
        bytes.skip(start + cut) == head.skip(cut) + tail,
{
    assert((head + tail).skip(cut) =~= head.skip(cut) + tail);
    assert(bytes.skip(start).skip(cut) =~= bytes.skip(start + cut));
}

/// Whether the slices that are left are the last of those there were, the first of
/// them cut at its front where it was written in part.
pub open spec fn leaves(slices: Seq<&[u8]>, left: Seq<&[u8]>) -> bool {
    let gone = slices.len() - left.len();
    &&& gone >= 0
    &&& left.len() > 0 ==> left[0]@.is_suffix_of(slices[gone]@)
    &&& forall|i: int| 0 < i < left.len() ==> #[trigger] left[i] == slices[gone + i]
}

impl<'a> PendingWrite<'a> {
    /// No slice is empty.
    pub open spec fn wf(&self) -> bool {
        all_filled(self.slices@)
    }

    /// Slices that are all to be written.
    pub fn new(slices: Vec<&'a [u8]>) -> (r: Self)
        requires
            all_filled(slices@),
        ensures
            r.wf(),
            r.slices@ == slices@,
            r@ == slice_bytes(slices@),
    {
        PendingWrite { slices }
    }

    /// Whether everything is written.
    pub fn is_finished(&self) -> (r: bool)
        requires
            self.wf(),
        ensures
            r == (self@.len() == 0),
    {
        proof {
            if self.slices@.len() > 0 {
                assert(self.slices@.last()@.len() > 0);
            }
        }
        self.slices.len() == 0
    }

    /// Strikes off bytes that were written.
    fn advance(&mut self, written: usize)
        requires
            old(self).wf(),
            written <= old(self)@.len(),
        ensures
            final(self).wf(),
            final(self)@ == old(self)@.skip(written as int),
            final(self).slices@.len() <= old(self).slices@.len(),
            leaves(old(self).slices@, final(self).slices@),
    {
        let ghost all = self.slices@;
        let ghost bytes = self@;
        let mut left: usize = written;
        let mut first: usize = 0;
        assert(all.skip(0) =~= all);
        assert(bytes.skip(0) =~= bytes);
        while first < self.slices.len() && self.slices[first].len() <= left
            invariant
                self.slices@ == all,
                all_filled(all),
                bytes == slice_bytes(all),
                first <= all.len(),
                left <= written <= bytes.len(),
                slice_bytes(all.skip(first as int)) == bytes.skip(written - left),
            decreases all.len() - first,
        {
            proof {
                lemma_slice_bytes_from(all, first as int);
                let head = all[first as int]@;
                let tail = slice_bytes(all.skip(first + 1));
                lemma_skip_into(bytes, written - left, head, tail, head.len() as int);
                assert(head.skip(head.len() as int) + tail =~= tail);
            }
            left = left - self.slices[first].len();
            first = first + 1;
        }
        let mut rest: Vec<&'a [u8]> = Vec::new();
        let mut i: usize = first;
        proof {
            if first == all.len() {
                assert(slice_bytes(all.skip(first as int)).len() == 0);
            }
        }
        if left > 0 {
            let head = self.slices[first];
            rest.push(slice_subrange(head, left, head.len()));
            i = first + 1;
            proof {
                lemma_slice_bytes_from(all, first as int);
                let tail = slice_bytes(all.skip(first + 1));
                lemma_skip_into(bytes, written - left, head@, tail, left as int);
                lemma_slice_bytes_push(Seq::empty(), rest@[0]);
                assert(Seq::empty().push(rest@[0]) =~= rest@);
                assert(slice_bytes(rest@) =~= head@.skip(left as int));
            }
        } else {
            assert(slice_bytes(rest@) + slice_bytes(all.skip(i as int)) =~= bytes.skip(
                written as int,
            ));
        }
        while i < self.slices.len()
            invariant
                self.slices@ == all,
                all_filled(all),
                all_filled(rest@),
                first <= i <= all.len(),
                rest@.len() == i - first,
                forall|j: int| 0 < j < rest@.len() ==> #[trigger] rest@[j] == all[first + j],
                rest@.len() > 0 ==> rest@[0]@.is_suffix_of(all[first as int]@),
                slice_bytes(rest@) + slice_bytes(all.skip(i as int)) == bytes.skip(written as int),
            decreases all.len() - i,
        {
            proof {
                lemma_slice_bytes_from(all, i as int);
                lemma_slice_bytes_push(rest@, all[i as int]);
                assert(slice_bytes(rest@.push(all[i as int])) + slice_bytes(all.skip(i + 1))
                    =~= bytes.skip(written as int));
            }
            rest.push(self.slices[i]);
            i = i + 1;
        }
        proof {
            assert(slice_bytes(all.skip(i as int)) =~= Seq::empty());
            assert(slice_bytes(rest@) =~= bytes.skip(written as int));
        }
        self.slices = rest;
    }

    /// Takes in what a vectored write came to. A write of nothing is an error, an
    /// interrupted one is repeated.
    pub fn record(&mut self, outcome: WriteOutcome) -> (r: WriteStep)
        requires
            old(self).wf(),
            old(self)@.len() > 0,
            outcome matches WriteOutcome::Wrote(written) ==> written <= old(self)@.len(),
        ensures
            final(self).wf(),
            final(self).slices@.len() <= old(self).slices@.len(),
            leaves(old(self).slices@, final(self).slices@),
            final(self)@ == (match outcome {
                WriteOutcome::Wrote(written) => old(self)@.skip(written as int),
                _ => old(self)@,
            }),
            r == (match outcome {
                WriteOutcome::Wrote(written) => if written == 0 {
                    WriteStep::NothingWritten
                } else if written == old(self)@.len() {
                    WriteStep::Finished
                } else {
                    WriteStep::WriteAgain
                },
                WriteOutcome::Interrupted => WriteStep::WriteAgain,
                WriteOutcome::Failed => WriteStep::Failed,
            }),
    {
        match outcome {
            WriteOutcome::Wrote(0) => {
                assert(self@.skip(0) =~= self@);
                WriteStep::NothingWritten
            },
            WriteOutcome::Wrote(written) => {
                self.advance(written);
                if self.is_finished() {
                    WriteStep::Finished
                } else {
                    WriteStep::WriteAgain
                }
            },
            WriteOutcome::Interrupted => WriteStep::WriteAgain,
            WriteOutcome::Failed => WriteStep::Failed,
        }
    }
}

/// The bytes that reach a file when the writes take so many bytes each.
pub open spec fn bytes_taken(bytes: Seq<u8>, counts: Seq<nat>) -> Seq<u8>
    decreases counts.len(),
{
    if counts.len() == 0 {
        Seq::empty()
    } else {
        bytes.take(counts[0] as int) + bytes_taken(bytes.skip(counts[0] as int), counts.skip(1))
    }
}

/// The sum of counts.
pub open spec fn total(counts: Seq<nat>) -> nat
    decreases counts.len(),
{
    if counts.len() == 0 {
        0
    } else {
        counts[0] + total(counts.skip(1))
    }
}

/// However the writes are cut, the file receives the bytes in order, none of them
/// left out or repeated.
pub proof fn partial_writes_do_not_show(bytes: Seq<u8>, counts: Seq<nat>)
    requires
        total(counts) <= bytes.len(),
    ensures
        bytes_taken(bytes, counts) == bytes.take(total(counts) as int),
        total(counts) == bytes.len() ==> bytes_taken(bytes, counts) == bytes,
    decreases counts.len(),
{
    if counts.len() > 0 {
        partial_writes_do_not_show(bytes.skip(counts[0] as int), counts.skip(1));
        assert(bytes_taken(bytes, counts) =~= bytes.take(total(counts) as int));
    }
    assert(bytes.take(bytes.len() as int) =~= bytes);
}

/// What is left after several writes is the end of what there was at first.
pub proof fn repeated_writes_leave_the_end(
    slices: Seq<&[u8]>,
    left: Seq<&[u8]>,
    later: Seq<&[u8]>,
)
    requires
        leaves(slices, left),
        leaves(left, later),
    ensures
        leaves(slices, later),
{
    let gone = slices.len() - later.len();
    if later.len() > 0 {
        let (a, b, c) = (later[0]@, left[left.len() - later.len()]@, slices[gone]@);
        if left.len() > later.len() {
            assert(left[left.len() - later.len()] == slices[gone]);
        } else {
            assert(b =~= c.subrange(c.len() - b.len(), c.len() as int));
            assert(a =~= b.subrange(b.len() - a.len(), b.len() as int));
            assert(a =~= c.subrange(c.len() - a.len(), c.len() as int));
        }
        assert forall|i: int| 0 < i < later.len() implies #[trigger] later[i] == slices[gone
            + i] by {
            let j = left.len() - later.len() + i;
            assert(later[i] == left[j]);
            assert(left[j] == slices[slices.len() - left.len() + j]);
        }
    }
}

/// No vectored write carries more slices than it may, however often a group is
/// continued.
pub proof fn writes_stay_within_the_limit(groups: Seq<Vec<&[u8]>>, i: int, left: Seq<&[u8]>)
    requires
        grouped(groups),
        0 <= i < groups.len(),
        leaves(groups[i]@, left),
    ensures
        left.len() <= MAX_VECTORED_SLICES,
{
}

/// What lines put into a file are the bytes of those lines, and of those only, that go
/// to its destination, one after the other; and so are their segments.
pub proof fn files_receive_the_lines_for_them(lines: Seq<QueuedLine>, destination: Destination)
    ensures
        destination_bytes(lines, destination) == lines.filter(
            |line: QueuedLine| line.destination == destination,
        ).map_values(|line: QueuedLine| line.bytes@).flatten(),
        destination_parts(lines, destination) == lines.filter(
            |line: QueuedLine| line.destination == destination,
        ).map_values(|line: QueuedLine| line.bytes.filled_parts()).flatten(),
    decreases lines.len(),
{
    reveal(Seq::filter);
    let goes_there = |line: QueuedLine| line.destination == destination;
    let bytes = |line: QueuedLine| line.bytes@;
    let parts = |line: QueuedLine| line.bytes.filled_parts();
    let all = lines.filter(goes_there);
    if lines.len() == 0 {
        assert(all.map_values(bytes) =~= Seq::empty());
        assert(all.map_values(parts) =~= Seq::empty());
    } else {
        let earlier = lines.drop_last();
        files_receive_the_lines_for_them(earlier, destination);
        let some = earlier.filter(goes_there);
        if lines.last().destination == destination {
            assert(all =~= some.push(lines.last()));
            some.map_values(bytes).lemma_flatten_push(lines.last().bytes@);
            assert(all.map_values(bytes) =~= some.map_values(bytes).push(lines.last().bytes@));
            some.map_values(parts).lemma_flatten_push(lines.last().bytes.filled_parts());
            assert(all.map_values(parts) =~= some.map_values(parts).push(
                lines.last().bytes.filled_parts(),
            ));
        } else {
            assert(all =~= some);
        }
    }
}

/// One more line adds its bytes to the file of its destination, and nothing to any
/// other.
pub proof fn every_line_is_in_one_file(
    lines: Seq<QueuedLine>,
    line: QueuedLine,
    destination: Destination,
)
    ensures
        line.destination == destination ==> destination_bytes(lines.push(line), destination)
            == destination_bytes(lines, destination) + line.bytes@,
        line.destination != destination ==> destination_bytes(lines.push(line), destination)
            == destination_bytes(lines, destination),
        destination_bytes(seq![line], line.destination) == line.bytes@,
        line.destination != destination ==> destination_bytes(seq![line], destination).len() == 0,
{
    assert(lines.push(line).drop_last() =~= lines);
    let nothing = Seq::<QueuedLine>::empty();
    assert(seq![line].drop_last() =~= nothing);
    assert(destination_bytes(nothing, destination).len() == 0);
    assert(destination_bytes(nothing, line.destination).len() == 0);
    assert(destination_bytes(seq![line], line.destination) =~= line.bytes@);
}

/// Together the files receive as many bytes as the lines have: none is left out, and
/// none is written twice.
pub proof fn no_byte_is_lost_or_doubled(lines: Seq<QueuedLine>)
    ensures
        destination_bytes(lines, Destination::Info).len() + destination_bytes(
            lines,
            Destination::Warn,
        ).len() + destination_bytes(lines, Destination::Error).len() + destination_bytes(
            lines,
            Destination::Api,
        ).len() + destination_bytes(lines, Destination::Slow).len() + destination_bytes(
            lines,
            Destination::Fallback,
        ).len() == lines.map_values(|line: QueuedLine| line.bytes@).flatten().len(),
    decreases lines.len(),
{
    let bytes = |line: QueuedLine| line.bytes@;
    if lines.len() == 0 {
        assert(lines.map_values(bytes) =~= Seq::empty());
    } else {
        let earlier = lines.drop_last();
        no_byte_is_lost_or_doubled(earlier);
        earlier.map_values(bytes).lemma_flatten_push(lines.last().bytes@);
        assert(lines.map_values(bytes) =~= earlier.map_values(bytes).push(lines.last().bytes@));
    }
}

/// The bytes of slices, and of groups of them, are those of each slice in turn.
pub proof fn groups_are_their_slices(slices: Seq<&[u8]>, groups: Seq<Vec<&[u8]>>)
    ensures
        slice_bytes(slices) == slices.map_values(|slice: &[u8]| slice@).flatten(),
        group_bytes(groups) == groups.map_values(
            |group: Vec<&[u8]>| group@.map_values(|slice: &[u8]| slice@).flatten(),
        ).flatten(),
        group_parts(groups) == groups.map_values(
            |group: Vec<&[u8]>| group@.map_values(|slice: &[u8]| slice@),
        ).flatten(),
    decreases groups.len(),
{
    lemma_slice_bytes_flatten(slices);
    assert(slice_parts(slices) =~= slices.map_values(|slice: &[u8]| slice@));
    let bytes = |group: Vec<&[u8]>| group@.map_values(|slice: &[u8]| slice@).flatten();
    let parts = |group: Vec<&[u8]>| group@.map_values(|slice: &[u8]| slice@);
    if groups.len() == 0 {
        assert(groups.map_values(bytes) =~= Seq::empty());
        assert(groups.map_values(parts) =~= Seq::empty());
    } else {
        let earlier = groups.drop_last();
        let last = groups.last();
        groups_are_their_slices(slices, earlier);
        lemma_slice_bytes_flatten(last@);
        assert(slice_parts(last@) =~= parts(last));
        earlier.map_values(bytes).lemma_flatten_push(bytes(last));
        assert(groups.map_values(bytes) =~= earlier.map_values(bytes).push(bytes(last)));
        earlier.map_values(parts).lemma_flatten_push(parts(last));
        assert(groups.map_values(parts) =~= earlier.map_values(parts).push(parts(last)));
    }
}

/// There are no more groups than the slices need, and none is too large or empty.
pub proof fn groups_are_as_few_as_can_be(groups: Seq<Vec<&[u8]>>)
    requires
        grouped(groups),
    ensures
        group_parts(groups).len() <= 1024 * groups.len(),
        groups.len() > 0 ==> group_parts(groups).len() > 1024 * (groups.len() - 1),
        forall|i: int| 0 <= i < groups.len() ==> 1 <= (#[trigger] groups[i])@.len() <= 1024,
{
    if groups.len() > 0 {
        lemma_full_groups(groups.drop_last());
    }
}

proof fn lemma_full_groups(groups: Seq<Vec<&[u8]>>)
    requires
        forall|i: int| 0 <= i < groups.len() ==> (#[trigger] groups[i])@.len() == 1024,
    ensures
        group_parts(groups).len() == 1024 * groups.len(),
    decreases groups.len(),
{
    if groups.len() > 0 {
        lemma_full_groups(groups.drop_last());
        assert(groups[groups.len() - 1]@.len() == 1024);
    }
}

/// The slices that are left after a write are the end of what there was, byte for byte.
pub proof fn what_is_left_is_the_end(slices: Seq<&[u8]>, left: Seq<&[u8]>)
    requires
        leaves(slices, left),
    ensures
        left.len() <= slices.len(),
        slice_bytes(left).is_suffix_of(slice_bytes(slices)),
    decreases left.len(),
{
    let (all, rest) = (slice_bytes(slices), slice_bytes(left));
    if left.len() == 0 {
        assert(rest =~= all.subrange(all.len() - rest.len(), all.len() as int));
    } else if left.len() == 1 {
        let (a, b) = (left[0]@, slices.last()@);
        assert(left =~= Seq::empty().push(left[0]));
        lemma_slice_bytes_push(Seq::empty(), left[0]);
        assert(rest =~= a);
        assert(a =~= b.subrange(b.len() - a.len(), b.len() as int));
        assert(rest =~= all.subrange(all.len() - rest.len(), all.len() as int));
    } else {
        assert(left[left.len() - 1] == slices[slices.len() - 1]);
        assert(leaves(slices.drop_last(), left.drop_last())) by {
            let gone = slices.len() - left.len();
            assert forall|i: int| 0 < i < left.drop_last().len() implies #[trigger] left.drop_last()[i]
                == slices.drop_last()[gone + i] by {
                assert(left[i] == slices[gone + i]);
            }
        }
        what_is_left_is_the_end(slices.drop_last(), left.drop_last());
        let (x, y) = (slice_bytes(left.drop_last()), slice_bytes(slices.drop_last()));
        assert(x =~= y.subrange(y.len() - x.len(), y.len() as int));
        assert(rest =~= all.subrange(all.len() - rest.len(), all.len() as int));
    }
}

/// The slices that are handed to vectored writes hold, one after the other, the bytes of
/// the lines for the destination and nothing else, and no group has more than 1024.
pub proof fn groups_hold_the_lines_for_the_file(
    lines: &[QueuedLine],
    destination: Destination,
    groups: Vec<Vec<&[u8]>>,
)
    requires
        forall|i: int| 0 <= i < lines@.len() ==> (#[trigger] lines@[i]).bytes.wf(),
        call_ensures(vectored_groups, (lines, destination), groups),
    ensures
        groups@.map_values(
            |group: Vec<&[u8]>| group@.map_values(|slice: &[u8]| slice@).flatten(),
        ).flatten() == lines@.filter(
            |line: QueuedLine| line.destination == destination,
        ).map_values(|line: QueuedLine| line.bytes@).flatten(),
        groups@.map_values(
            |group: Vec<&[u8]>| group@.map_values(|slice: &[u8]| slice@),
        ).flatten() == lines@.filter(
            |line: QueuedLine| line.destination == destination,
        ).map_values(|line: QueuedLine| line.bytes.filled_parts()).flatten(),
        forall|i: int| 0 <= i < groups@.len() ==> 1 <= (#[trigger] groups@[i])@.len() <= 1024,
{
    groups_are_their_slices(Seq::empty(), groups@);
    files_receive_the_lines_for_them(lines@, destination);
    groups_are_as_few_as_can_be(groups@);
}

/// A write takes off what it wrote, and it is told what is to be done: to write again
/// after part of the bytes or an interruption, to stop after all of them, after none,
/// or after a failure.
pub proof fn writes_take_off_what_was_written(outcome: WriteOutcome, step: WriteStep)
    ensures
        forall|changing: &mut PendingWrite<'_>| #[trigger]
            call_ensures(PendingWrite::record, (changing, outcome), step) && (*changing).wf() && (
            outcome matches WriteOutcome::Wrote(written) ==> written <= (*changing)@.len()) ==> {
                let before = (*changing)@;
                let after = final(changing)@;
                &&& outcome matches WriteOutcome::Wrote(written) ==> {
                    &&& before.len() == written + after.len()
                    &&& before.take(written as int) + after == before
                    &&& step is NothingWritten <==> written == 0
                    &&& step is Finished <==> written > 0 && after.len() == 0
                    &&& step is WriteAgain <==> written > 0 && after.len() > 0
                }
                &&& outcome is Interrupted ==> after == before && step is WriteAgain
                &&& outcome is Failed ==> after == before && step is Failed
                &&& final(changing).slices@.len() <= (*changing).slices@.len()
            },
{
    assert forall|changing: &mut PendingWrite<'_>| #[trigger]
        call_ensures(PendingWrite::record, (changing, outcome), step) && (*changing).wf() && (
        outcome matches WriteOutcome::Wrote(written) ==> written <= (*changing)@.len()) implies {
        let before = (*changing)@;
        let after = final(changing)@;
        &&& outcome matches WriteOutcome::Wrote(written) ==> {
            &&& before.len() == written + after.len()
            &&& before.take(written as int) + after == before
            &&& step is NothingWritten <==> written == 0
            &&& step is Finished <==> written > 0 && after.len() == 0
            &&& step is WriteAgain <==> written > 0 && after.len() > 0
        }
        &&& outcome is Interrupted ==> after == before && step is WriteAgain
        &&& outcome is Failed ==> after == before && step is Failed
        &&& final(changing).slices@.len() <= (*changing).slices@.len()
    } by {
        let before = (*changing)@;
        let after = final(changing)@;
        if let WriteOutcome::Wrote(written) = outcome {
            assert(before.take(written as int) + before.skip(written as int) =~= before);
        }
    }
}

/// Slices that are all to be written are left to be written, and nothing is left exactly
/// where all bytes are written.
pub proof fn new_writes_have_all_to_write(
    slices: Vec<&[u8]>,
    pending: PendingWrite<'_>,
    finished: bool,
)
    requires
        all_filled(slices@),
        call_ensures(PendingWrite::new, (slices,), pending),
        call_ensures(PendingWrite::is_finished, (&pending,), finished),
    ensures
        pending.slices@ == slices@,
        pending@ == slices@.map_values(|slice: &[u8]| slice@).flatten(),
        finished <==> pending@.len() == 0,
{
    groups_are_their_slices(slices@, Seq::empty());
}

} // verus!
