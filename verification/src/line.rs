//! One log line, kept in segments. Appending never replaces one.

use brz_ds::{EphemeralBytesArena, EphemeralBytesMut};
use vstd::prelude::*;
use vstd::slice::slice_subrange;

use crate::arena::{frame_bytes, frame_capacity, frame_on_heap};

verus! {

/// Capacity beyond which overflow segments no longer grow.
pub const MAX_INITIAL_LINE_BYTES: usize = 2048;

/// The bytes of one line: a primary segment and the segments it overflowed into.
pub struct SegmentedLine {
    pub primary: EphemeralBytesMut,
    pub overflow: Vec<EphemeralBytesMut>,
    pub len: usize,
    pub ever_overflowed: bool,
}

/// The segment sizes asked for grow geometrically up to a fixed cap.
pub open spec fn next_segment_capacity(capacity: nat) -> nat {
    if 2 * capacity <= MAX_INITIAL_LINE_BYTES {
        2 * capacity
    } else {
        MAX_INITIAL_LINE_BYTES as nat
    }
}

/// How much a segment can hold, and whether it lies on the heap.
pub struct SegmentSize {
    pub capacity: nat,
    pub on_heap: bool,
}

impl SegmentSize {
    /// Whether a segment can have this size when so many bytes were asked for: in
    /// the arena it has exactly that many, on the heap it may have more.
    pub open spec fn answers(self, asked: nat) -> bool {
        if self.on_heap {
            self.capacity >= asked
        } else {
            self.capacity == asked
        }
    }
}

/// Whether segment `i` was asked for with the size that follows that of its
/// predecessor.
pub open spec fn grown_at(sizes: Seq<SegmentSize>, i: int) -> bool {
    sizes[i].answers(next_segment_capacity(sizes[i - 1].capacity))
}

/// How the parts of a line sit in segments of the given sizes: no segment
/// is over-full or without capacity, every segment but the last is full, no
/// overflow segment is empty, and each was asked for with the next larger size.
pub open spec fn layout_ok(parts: Seq<Seq<u8>>, sizes: Seq<SegmentSize>) -> bool {
    let n = parts.len() as int;
    &&& n > 0
    &&& sizes.len() == n
    &&& forall|i: int|
        0 <= i < n ==> (#[trigger] parts[i]).len() <= sizes[i].capacity && sizes[i].capacity > 0
    &&& forall|i: int| 0 <= i < n - 1 ==> (#[trigger] parts[i]).len() == sizes[i].capacity
    &&& forall|i: int| 0 < i < n ==> (#[trigger] parts[i]).len() > 0
    &&& forall|i: int| 0 < i < n ==> #[trigger] grown_at(sizes, i)
}

/// Whether the later parts continue the earlier ones: the same segments hold at
/// least the same bytes, and all but the last of the earlier ones are unchanged.
pub open spec fn layout_extends(
    later_parts: Seq<Seq<u8>>,
    later_sizes: Seq<SegmentSize>,
    parts: Seq<Seq<u8>>,
    sizes: Seq<SegmentSize>,
) -> bool {
    let n = parts.len() as int;
    &&& n <= later_parts.len()
    &&& sizes.is_prefix_of(later_sizes)
    &&& forall|i: int| 0 <= i < n - 1 ==> #[trigger] later_parts[i] == parts[i]
    &&& parts[n - 1].is_prefix_of(later_parts[n - 1])
}

/// Whether the earlier frames are still the same: all but the last, and that one
/// too where it was full.
pub open spec fn same_frames(
    later: Seq<EphemeralBytesMut>,
    frames: Seq<EphemeralBytesMut>,
    last_is_full: bool,
) -> bool {
    let n = frames.len() as int;
    &&& forall|i: int| 0 <= i < n - 1 ==> #[trigger] later[i] == frames[i]
    &&& last_is_full ==> later[n - 1] == frames[n - 1]
}

proof fn lemma_extends_transitive(
    p3: Seq<Seq<u8>>,
    c3: Seq<SegmentSize>,
    p2: Seq<Seq<u8>>,
    c2: Seq<SegmentSize>,
    p1: Seq<Seq<u8>>,
    c1: Seq<SegmentSize>,
)
    requires
        p1.len() > 0,
        c1.len() == p1.len(),
        c2.len() == p2.len(),
        c3.len() == p3.len(),
        layout_extends(p2, c2, p1, c1),
        layout_extends(p3, c3, p2, c2),
    ensures
        layout_extends(p3, c3, p1, c1),
{
    let n = p1.len() as int;
    assert(c1 =~= c2.subrange(0, n));
    assert(c2 =~= c3.subrange(0, c2.len() as int));
    assert(c1 =~= c3.subrange(0, n));
    assert forall|i: int| 0 <= i < n - 1 implies #[trigger] p3[i] == p1[i] by {
        assert(p2[i] == p1[i]);
    }
    let a = p1[n - 1];
    let b = p2[n - 1];
    let c = p3[n - 1];
    assert(b.is_prefix_of(c));
    assert(a =~= b.subrange(0, a.len() as int));
    assert(b =~= c.subrange(0, b.len() as int));
    assert(a =~= c.subrange(0, a.len() as int));
}

/// Extending the last part.
proof fn lemma_extend_last(parts: Seq<Seq<u8>>, sizes: Seq<SegmentSize>, piece: Seq<u8>)
    requires
        layout_ok(parts, sizes),
        parts.last().len() + piece.len() <= sizes.last().capacity,
    ensures
        ({
            let later = parts.update(parts.len() - 1, parts.last() + piece);
            &&& layout_ok(later, sizes)
            &&& layout_extends(later, sizes, parts, sizes)
            &&& later.flatten() == parts.flatten() + piece
        }),
{
    let later = parts.update(parts.len() - 1, parts.last() + piece);
    lemma_flatten_last(parts);
    lemma_flatten_last(later);
    assert(later.drop_last() =~= parts.drop_last());
    assert(later.flatten() =~= parts.flatten() + piece);
    assert(sizes =~= sizes.subrange(0, sizes.len() as int));
    assert(parts.last() =~= later.last().subrange(0, parts.last().len() as int));
}

/// Adding one more part after a full one.
proof fn lemma_add_part(parts: Seq<Seq<u8>>, sizes: Seq<SegmentSize>, piece: Seq<u8>, size: SegmentSize)
    requires
        layout_ok(parts, sizes),
        parts.last().len() == sizes.last().capacity,
        0 < piece.len() <= size.capacity,
        size.answers(next_segment_capacity(sizes.last().capacity)),
    ensures
        layout_ok(parts.push(piece), sizes.push(size)),
        layout_extends(parts.push(piece), sizes.push(size), parts, sizes),
        parts.push(piece).flatten() == parts.flatten() + piece,
{
    parts.lemma_flatten_push(piece);
    let later = sizes.push(size);
    assert(sizes =~= later.subrange(0, sizes.len() as int));
    assert forall|i: int| 0 < i < later.len() implies #[trigger] grown_at(later, i) by {
        if i < sizes.len() {
            assert(grown_at(sizes, i));
        }
    }
    let last = parts.last();
    assert(last =~= parts.push(piece)[parts.len() - 1].subrange(0, last.len() as int));
}

/// Giving up the last of several parts.
proof fn lemma_drop_part(parts: Seq<Seq<u8>>, sizes: Seq<SegmentSize>)
    requires
        layout_ok(parts, sizes),
        parts.len() > 1,
    ensures
        layout_ok(parts.drop_last(), sizes.drop_last()),
        layout_extends(parts, sizes, parts.drop_last(), sizes.drop_last()),
        parts.drop_last().flatten() == parts.flatten().take(
            parts.flatten().len() - parts.last().len(),
        ),
{
    lemma_flatten_last(parts);
    let kept = parts.drop_last();
    let kept_sizes = sizes.drop_last();
    assert(kept.flatten() =~= parts.flatten().take(parts.flatten().len() - parts.last().len()));
    assert(kept_sizes =~= sizes.subrange(0, kept_sizes.len() as int));
    assert forall|i: int| 0 < i < kept_sizes.len() implies #[trigger] grown_at(kept_sizes, i) by {
        assert(grown_at(sizes, i));
    }
    let last = kept.last();
    assert(last =~= parts[kept.len() - 1].subrange(0, last.len() as int));
}

/// Shortening the last part, to no less than one byte where it is not the only one.
proof fn lemma_shorten_last(parts: Seq<Seq<u8>>, sizes: Seq<SegmentSize>, removed: nat)
    requires
        layout_ok(parts, sizes),
        removed <= parts.last().len(),
        parts.len() > 1 ==> removed < parts.last().len(),
    ensures
        ({
            let kept = parts.update(
                parts.len() - 1,
                parts.last().take(parts.last().len() - removed),
            );
            &&& layout_ok(kept, sizes)
            &&& layout_extends(parts, sizes, kept, sizes)
            &&& kept.flatten() == parts.flatten().take(parts.flatten().len() - removed)
        }),
{
    let kept = parts.update(parts.len() - 1, parts.last().take(parts.last().len() - removed));
    lemma_flatten_last(parts);
    lemma_flatten_last(kept);
    assert(kept.drop_last() =~= parts.drop_last());
    assert(kept.flatten() =~= parts.flatten().take(parts.flatten().len() - removed));
    assert(sizes =~= sizes.subrange(0, sizes.len() as int));
    assert(kept.last() =~= parts.last().subrange(0, kept.last().len() as int));
}

/// Parts continue themselves.
proof fn lemma_extends_reflexive(parts: Seq<Seq<u8>>, sizes: Seq<SegmentSize>)
    requires
        parts.len() > 0,
        sizes.len() == parts.len(),
    ensures
        layout_extends(parts, sizes, parts, sizes),
{
    assert(sizes =~= sizes.subrange(0, sizes.len() as int));
    assert(parts.last() =~= parts.last().subrange(0, parts.last().len() as int));
}

/// Splitting off the last part of a concatenation.
pub proof fn lemma_flatten_last(parts: Seq<Seq<u8>>)
    requires
        parts.len() > 0,
    ensures
        parts.flatten() == parts.drop_last().flatten() + parts.last(),
{
    parts.drop_last().lemma_flatten_push(parts.last());
    assert(parts.drop_last().push(parts.last()) =~= parts);
}

/// How many bytes still fit into the segment that the last of `len` bytes lies in,
/// where bytes fill segments of the given sizes one after the other.
pub open spec fn room_behind(sizes: Seq<SegmentSize>, len: int) -> int
    decreases sizes.len(),
{
    if sizes.len() <= 1 || len <= sizes[0].capacity {
        sizes[0].capacity - len
    } else {
        room_behind(sizes.skip(1), len - sizes[0].capacity)
    }
}

proof fn lemma_room_behind(
    parts: Seq<Seq<u8>>,
    sizes: Seq<SegmentSize>,
    later_sizes: Seq<SegmentSize>,
)
    requires
        layout_ok(parts, sizes),
        sizes.is_prefix_of(later_sizes),
    ensures
        room_behind(later_sizes, parts.flatten().len() as int) == sizes.last().capacity
            - parts.last().len(),
    decreases parts.len(),
{
    let rest = parts.skip(1);
    assert(parts.drop_first() =~= rest);
    assert(later_sizes[0] == sizes[0]);
    if parts.len() == 1 {
        assert(parts.flatten() =~= parts[0]) by {
            parts.lemma_flatten_singleton();
        }
    } else {
        let rest_sizes = sizes.skip(1);
        assert(parts[1].len() > 0);
        rest.lemma_flatten_length_ge_single_element_length(0);
        assert forall|i: int| 0 < i < rest_sizes.len() implies #[trigger] grown_at(
            rest_sizes,
            i,
        ) by {
            assert(grown_at(sizes, i + 1));
        }
        assert(layout_ok(rest, rest_sizes));
        assert(rest_sizes =~= later_sizes.skip(1).subrange(0, rest_sizes.len() as int));
        lemma_room_behind(rest, rest_sizes, later_sizes.skip(1));
        assert(parts.flatten() == parts[0] + rest.flatten());
    }
}

/// The sizes of the segments that `len` bytes fill in the arena: they double from
/// the first on, up to the cap, and there are no more of them than are needed.
pub open spec fn arena_segments(first: nat, len: nat) -> Seq<nat>
    decreases len,
{
    if first == 0 || len <= first {
        seq![first]
    } else {
        seq![first] + arena_segments(next_segment_capacity(first), (len - first) as nat)
    }
}

proof fn lemma_arena_segments(parts: Seq<Seq<u8>>, sizes: Seq<SegmentSize>)
    requires
        layout_ok(parts, sizes),
        forall|i: int| 0 <= i < sizes.len() ==> !(#[trigger] sizes[i]).on_heap,
    ensures
        sizes.map_values(|size: SegmentSize| size.capacity) == arena_segments(
            sizes[0].capacity,
            parts.flatten().len(),
        ),
    decreases parts.len(),
{
    let rest = parts.skip(1);
    assert(parts.drop_first() =~= rest);
    let capacities = sizes.map_values(|size: SegmentSize| size.capacity);
    if parts.len() == 1 {
        parts.lemma_flatten_singleton();
        assert(capacities =~= seq![sizes[0].capacity]);
    } else {
        let rest_sizes = sizes.skip(1);
        assert(grown_at(sizes, 1));
        assert(!sizes[1].on_heap);
        assert(parts[1].len() > 0);
        rest.lemma_flatten_length_ge_single_element_length(0);
        assert forall|i: int| 0 < i < rest_sizes.len() implies #[trigger] grown_at(
            rest_sizes,
            i,
        ) by {
            assert(grown_at(sizes, i + 1));
        }
        lemma_arena_segments(rest, rest_sizes);
        assert(parts.flatten() == parts[0] + rest.flatten());
        assert(capacities =~= seq![sizes[0].capacity] + rest_sizes.map_values(
            |size: SegmentSize| size.capacity,
        ));
    }
}

impl View for SegmentedLine {
    type V = Seq<u8>;

    /// The bytes of the line, in order.
    open spec fn view(&self) -> Seq<u8> {
        self.parts().flatten()
    }
}

impl SegmentedLine {
    /// The frames of the line, the primary one first.
    pub open spec fn frames(&self) -> Seq<EphemeralBytesMut> {
        seq![self.primary] + self.overflow@
    }

    /// What each segment holds.
    pub open spec fn parts(&self) -> Seq<Seq<u8>> {
        self.frames().map_values(|frame: EphemeralBytesMut| frame_bytes(frame))
    }

    /// How much each segment can hold, and where it lies.
    pub open spec fn sizes(&self) -> Seq<SegmentSize> {
        self.frames().map_values(
            |frame: EphemeralBytesMut|
                SegmentSize { capacity: frame_capacity(frame), on_heap: frame_on_heap(frame) },
        )
    }

    /// How many bytes still fit into the last segment.
    pub open spec fn room(&self) -> int {
        self.sizes().last().capacity - self.parts().last().len()
    }

    /// How many bytes would still fit into the last segment if the line were cut to
    /// `len` bytes.
    pub open spec fn room_at(&self, len: int) -> int {
        room_behind(self.sizes(), len)
    }

    /// Whether every segment lies in the arena.
    pub open spec fn in_arena(&self) -> bool {
        forall|i: int| 0 <= i < self.sizes().len() ==> !(#[trigger] self.sizes()[i]).on_heap
    }

    /// The recorded length is right, an overflow is on record, and the segments
    /// are laid out in order.
    pub open spec fn wf(&self) -> bool {
        &&& self.len == self@.len()
        &&& self.overflow@.len() > 0 ==> self.ever_overflowed
        &&& layout_ok(self.parts(), self.sizes())
    }

    /// Whether this line continues `earlier`: every full segment of that one is the
    /// same frame here, and the last one, where it was not full, has kept its bytes
    /// and its size. Where in memory a segment that is being filled lies is not said.
    pub open spec fn extends(&self, earlier: &SegmentedLine) -> bool {
        &&& layout_extends(self.parts(), self.sizes(), earlier.parts(), earlier.sizes())
        &&& same_frames(self.frames(), earlier.frames(), earlier.room() == 0)
    }

    /// Whether this line continues the first `kept` bytes of `earlier`.
    pub open spec fn extends_start(&self, earlier: &SegmentedLine, kept: int) -> bool {
        exists|start: SegmentedLine|
            {
                &&& start.wf()
                &&& start@ == earlier@.take(kept)
                &&& #[trigger] earlier.extends(&start)
                &&& self.extends(&start)
            }
    }

    /// An empty line whose primary segment has the given capacity, or more where it
    /// lies on the heap.
    pub fn new(arena: &EphemeralBytesArena, initial_capacity: usize) -> (line: Self)
        requires
            0 < initial_capacity <= isize::MAX,
        ensures
            line.wf(),
            line@ == Seq::<u8>::empty(),
            !line.ever_overflowed,
            line.sizes().len() == 1,
            line.sizes()[0].answers(initial_capacity as nat),
    {
        let line = Self {
            primary: arena.alloc(initial_capacity),
            overflow: Vec::new(),
            len: 0,
            ever_overflowed: false,
        };
        proof {
            assert(line.parts() =~= seq![Seq::<u8>::empty()]);
            line.parts().lemma_flatten_singleton();
        }
        line
    }

    fn current(&self) -> (frame: &EphemeralBytesMut)
        ensures
            *frame == self.frames().last(),
    {
        if self.overflow.len() == 0 {
            &self.primary
        } else {
            &self.overflow[self.overflow.len() - 1]
        }
    }

    /// Extends the last segment in place.
    fn extend_current(&mut self, bytes: &[u8])
        requires
            bytes@.len() <= frame_capacity(old(self).frames().last()) - frame_bytes(
                old(self).frames().last(),
            ).len(),
        ensures
            final(self).parts() == old(self).parts().update(
                old(self).parts().len() - 1,
                old(self).parts().last() + bytes@,
            ),
            final(self).sizes() == old(self).sizes(),
            same_frames(final(self).frames(), old(self).frames(), false),
            final(self).overflow@.len() == old(self).overflow@.len(),
            final(self).len == old(self).len,
            final(self).ever_overflowed == old(self).ever_overflowed,
    {
        let count = self.overflow.len();
        if count == 0 {
            self.primary.extend_from_slice(bytes);
        } else {
            self.overflow[count - 1].extend_from_slice(bytes);
        }
    }

    /// Number of bytes in the line.
    pub fn len(&self) -> (r: usize)
        requires
            self.wf(),
        ensures
            r == self@.len(),
    {
        self.len
    }

    /// Whether nothing has been written.
    pub fn is_empty(&self) -> (r: bool)
        requires
            self.wf(),
        ensures
            r == (self@.len() == 0),
    {
        self.len == 0
    }

    /// Whether the line ever needed more than its primary segment.
    pub fn overflowed(&self) -> (r: bool)
        ensures
            r == self.ever_overflowed,
    {
        self.ever_overflowed
    }

    /// Writes as many bytes as the last segment takes, after adding a segment
    /// when it takes none.
    fn fill(&mut self, arena: &EphemeralBytesArena, bytes: &[u8]) -> (accepted: usize)
        requires
            old(self).wf(),
            bytes@.len() > 0,
            old(self)@.len() + bytes@.len() <= usize::MAX,
        ensures
            0 < accepted <= bytes@.len(),
            final(self).wf(),
            final(self)@ == old(self)@ + bytes@.take(accepted as int),
            final(self).extends(old(self)),
            old(self).room() > 0 ==> {
                &&& final(self).sizes() == old(self).sizes()
                &&& final(self).ever_overflowed == old(self).ever_overflowed
                &&& accepted <= old(self).room()
                &&& final(self).room() == old(self).room() - accepted
            },
            old(self).room() == 0 ==> {
                &&& final(self).sizes().len() == old(self).sizes().len() + 1
                &&& final(self).ever_overflowed
            },
    {
        let ghost start = *self;
        let full = self.current().remaining() == 0;
        if full {
            let capacity = self.current().capacity();
            let next_capacity: usize = if capacity > MAX_INITIAL_LINE_BYTES / 2 {
                MAX_INITIAL_LINE_BYTES
            } else {
                2 * capacity
            };
            self.overflow.push(arena.alloc(next_capacity));
            self.ever_overflowed = true;
            proof {
                assert(self.parts() =~= start.parts().push(Seq::<u8>::empty()));
                assert(self.sizes() =~= start.sizes().push(self.sizes().last()));
            }
        }
        let available = self.current().remaining();
        let accepted: usize = if bytes.len() < available {
            bytes.len()
        } else {
            available
        };
        let ghost size = self.sizes().last();
        self.extend_current(slice_subrange(bytes, 0, accepted));
        self.len = self.len + accepted;
        proof {
            let piece = bytes@.take(accepted as int);
            assert(Seq::<u8>::empty() + piece =~= piece);
            if full {
                lemma_add_part(start.parts(), start.sizes(), piece, size);
                assert(self.parts() =~= start.parts().push(piece));
            } else {
                lemma_extend_last(start.parts(), start.sizes(), piece);
            }
        }
        accepted
    }

    /// Appends bytes. Full segments are untouched, and the last one is only extended.
    /// New segments are added exactly when the bytes do not fit into it.
    pub fn append(&mut self, arena: &EphemeralBytesArena, bytes: &[u8])
        requires
            old(self).wf(),
            old(self)@.len() + bytes@.len() <= usize::MAX,
        ensures
            final(self).wf(),
            final(self)@ == old(self)@ + bytes@,
            final(self).ever_overflowed == (old(self).ever_overflowed || bytes@.len() > old(
                self,
            ).room()),
            final(self).extends(old(self)),
            bytes@.len() <= old(self).room() ==> final(self).sizes() == old(
                self,
            ).sizes(),
            bytes@.len() > old(self).room() ==> final(self).sizes().len() > old(
                self,
            ).sizes().len(),
    {
        let ghost start = *self;
        let mut offset: usize = 0;
        proof {
            lemma_extends_reflexive(start.parts(), start.sizes());
            assert(start@ + bytes@.take(0) =~= start@);
        }
        while offset < bytes.len()
            invariant
                offset <= bytes@.len(),
                start@.len() + bytes@.len() <= usize::MAX,
                start.wf(),
                self.wf(),
                self@ == start@ + bytes@.take(offset as int),
                self.extends(&start),
                self.sizes().len() == start.sizes().len() ==> {
                    &&& self.sizes() == start.sizes()
                    &&& self.ever_overflowed == start.ever_overflowed
                    &&& self.room() == start.room() - offset
                },
                self.sizes().len() > start.sizes().len() ==> self.ever_overflowed
                    && bytes@.len() > start.room(),
            decreases bytes@.len() - offset,
        {
            let ghost before = *self;
            let rest = slice_subrange(bytes, offset, bytes.len());
            let accepted = self.fill(arena, rest);
            proof {
                lemma_extends_transitive(
                    self.parts(),
                    self.sizes(),
                    before.parts(),
                    before.sizes(),
                    start.parts(),
                    start.sizes(),
                );
                assert(self@ =~= start@ + bytes@.take(offset + accepted));
            }
            offset = offset + accepted;
        }
        proof {
            assert(bytes@.take(offset as int) =~= bytes@);
        }
    }

    /// Keeps at most the first `len` bytes. Segments that are kept whole are untouched.
    pub fn truncate(&mut self, len: usize)
        requires
            old(self).wf(),
        ensures
            final(self).wf(),
            final(self)@ == old(self)@.take(
                if len < old(self)@.len() {
                    len as int
                } else {
                    old(self)@.len() as int
                },
            ),
            final(self).ever_overflowed == old(self).ever_overflowed,
            old(self).extends(final(self)),
            final(self).room() == old(self).room_at(final(self)@.len() as int),
    {
        let ghost start = *self;
        let len: usize = if len < self.len {
            len
        } else {
            self.len
        };
        let mut removed: usize = self.len - len;
        proof {
            lemma_extends_reflexive(start.parts(), start.sizes());
            assert(start@.take(len + removed) =~= start@);
        }
        while removed > 0
            invariant
                start.wf(),
                len + removed <= start@.len(),
                self@ == start@.take(len + removed),
                self.ever_overflowed == start.ever_overflowed,
                self.overflow@.len() > 0 ==> self.ever_overflowed,
                layout_ok(self.parts(), self.sizes()),
                start.extends(self),
            decreases removed, self.overflow@.len(),
        {
            let ghost before = *self;
            let count = self.overflow.len();
            proof {
                lemma_flatten_last(before.parts());
            }
            if count > 0 {
                let last_len = self.overflow[count - 1].len();
                if last_len <= removed {
                    self.overflow.pop();
                    removed = removed - last_len;
                    proof {
                        lemma_drop_part(before.parts(), before.sizes());
                        assert(self.parts() =~= before.parts().drop_last());
                        assert(self.sizes() =~= before.sizes().drop_last());
                        assert(self@ =~= start@.take(len + removed));
                    }
                } else {
                    self.overflow[count - 1].truncate(last_len - removed);
                    proof {
                        lemma_shorten_last(before.parts(), before.sizes(), removed as nat);
                        assert(self.parts() =~= before.parts().update(
                            before.parts().len() - 1,
                            before.parts().last().take(before.parts().last().len() - removed),
                        ));
                        assert(self.sizes() =~= before.sizes());
                        assert(self@ =~= start@.take(len as int));
                    }
                    removed = 0;
                }
            } else {
                let primary_len = self.primary.len();
                proof {
                    assert(before.parts().drop_last() =~= Seq::empty());
                    assert(before@ =~= before.parts().last());
                }
                self.primary.truncate(primary_len - removed);
                proof {
                    lemma_shorten_last(before.parts(), before.sizes(), removed as nat);
                    assert(self.parts() =~= before.parts().update(
                        before.parts().len() - 1,
                        before.parts().last().take(before.parts().last().len() - removed),
                    ));
                    assert(self.sizes() =~= before.sizes());
                    assert(self@ =~= start@.take(len as int));
                }
                removed = 0;
            }
            proof {
                lemma_extends_transitive(
                    start.parts(),
                    start.sizes(),
                    before.parts(),
                    before.sizes(),
                    self.parts(),
                    self.sizes(),
                );
            }
        }
        self.len = len;
        proof {
            lemma_room_behind(self.parts(), self.sizes(), start.sizes());
        }
    }

    /// Whether every segment lies in the arena, so that each has exactly the size
    /// that was asked for.
    pub fn is_in_arena(&self) -> (r: bool)
        ensures
            r == self.in_arena(),
    {
        assert(self.sizes()[0].on_heap == frame_on_heap(self.primary));
        if self.primary.is_heap_allocated() {
            return false;
        }
        let mut i: usize = 0;
        while i < self.overflow.len()
            invariant
                i <= self.overflow@.len(),
                forall|j: int| 0 <= j <= i ==> !(#[trigger] self.sizes()[j]).on_heap,
            decreases self.overflow@.len() - i,
        {
            assert(self.sizes()[i + 1].on_heap == frame_on_heap(self.overflow@[i as int]));
            if self.overflow[i].is_heap_allocated() {
                return false;
            }
            i = i + 1;
        }
        true
    }

    /// Whether the last byte is a line feed.
    pub fn ends_with_newline(&self) -> (r: bool)
        requires
            self.wf(),
        ensures
            r == (self@.len() > 0 && self@.last() == 10u8),
    {
        let bytes = self.current().as_slice();
        proof {
            lemma_flatten_last(self.parts());
            if self.parts().len() == 1 {
                assert(self.parts().drop_last() =~= Seq::empty());
                assert(self@ =~= self.parts().last());
            }
        }
        bytes.len() > 0 && bytes[bytes.len() - 1] == 10
    }

    /// The parts that hold bytes.
    pub open spec fn filled_parts(&self) -> Seq<Seq<u8>> {
        if self@.len() == 0 {
            Seq::empty()
        } else {
            self.parts()
        }
    }

    /// The non-empty segments, in order. Together they are the line.
    pub fn segments(&self) -> (r: Vec<&[u8]>)
        requires
            self.wf(),
        ensures
            r@.map_values(|slice: &[u8]| slice@) == self.filled_parts(),
            self.filled_parts().flatten() == self@,
            forall|i: int| 0 <= i < r@.len() ==> (#[trigger] r@[i])@.len() > 0,
    {
        let mut r: Vec<&[u8]> = Vec::new();
        proof {
            filled_parts_are_the_line(*self);
        }
        if self.len == 0 {
            assert(r@.map_values(|slice: &[u8]| slice@) =~= self.filled_parts());
            return r;
        }
        r.push(self.primary.as_slice());
        let mut i: usize = 0;
        while i < self.overflow.len()
            invariant
                self.wf(),
                self@.len() > 0,
                i <= self.overflow@.len(),
                r@.len() == i + 1,
                forall|j: int| 0 <= j <= i ==> (#[trigger] r@[j])@ == self.parts()[j],
            decreases self.overflow@.len() - i,
        {
            r.push(self.overflow[i].as_slice());
            i = i + 1;
        }
        assert(r@.map_values(|slice: &[u8]| slice@) =~= self.filled_parts());
        assert forall|j: int| 0 <= j < r@.len() implies (#[trigger] r@[j])@.len() > 0 by {
            assert(self.filled_parts()[j].len() > 0);
        }
        r
    }
}

/// The segments of a line in the arena follow from the first one and the length.
pub proof fn arena_segments_double(line: SegmentedLine)
    requires
        line.wf(),
        line.in_arena(),
    ensures
        line.sizes().map_values(|size: SegmentSize| size.capacity) == arena_segments(
            line.sizes()[0].capacity,
            line@.len(),
        ),
{
    lemma_arena_segments(line.parts(), line.sizes());
}

/// The filled segments of a line, one after the other, are the line.
pub proof fn filled_parts_are_the_line(line: SegmentedLine)
    requires
        line.wf(),
    ensures
        line.filled_parts().flatten() == line@,
        forall|i: int|
            0 <= i < line.filled_parts().len() ==> (#[trigger] line.filled_parts()[i]).len() > 0,
{
    lemma_flatten_last(line.parts());
    if line.parts().len() == 1 {
        assert(line.parts().drop_last() =~= Seq::empty());
        assert(line@ =~= line.parts().last());
    } else {
        assert(line.parts().last().len() > 0);
        assert(line.parts()[0].len() > 0);
    }
    assert(line.filled_parts().flatten() =~= line@);
}

/// A line continues itself.
pub proof fn lines_extend_themselves(line: SegmentedLine)
    requires
        line.wf(),
    ensures
        line.extends(&line),
{
    lemma_extends_reflexive(line.parts(), line.sizes());
}

/// The last segment of a line has the room that its length leaves.
pub proof fn length_gives_room(line: SegmentedLine)
    requires
        line.wf(),
    ensures
        line.room() == line.room_at(line@.len() as int),
{
    assert(line.sizes() =~= line.sizes().subrange(0, line.sizes().len() as int));
    lemma_room_behind(line.parts(), line.sizes(), line.sizes());
}

/// Each segment is asked for with twice the size of the one before, but with no more
/// than 2048 bytes.
pub proof fn segment_sizes_double(capacity: nat)
    ensures
        capacity <= 1024 ==> next_segment_capacity(capacity) == 2 * capacity,
        capacity >= 1024 ==> next_segment_capacity(capacity) == 2048,
{
}

/// The sum of sizes.
pub open spec fn total_size(sizes: Seq<nat>) -> nat
    decreases sizes.len(),
{
    if sizes.len() == 0 {
        0
    } else {
        sizes[0] + total_size(sizes.skip(1))
    }
}

/// The segments in the arena start with the first size and double from there; they have
/// room for all bytes, and without the last of them they would not.
pub proof fn arena_segments_are_as_few_as_can_be(first: nat, len: nat)
    requires
        first > 0,
    ensures
        ({
            let sizes = arena_segments(first, len);
            &&& sizes.len() > 0
            &&& sizes[0] == first
            &&& total_size(sizes) >= len
            &&& sizes.len() > 1 ==> total_size(sizes.drop_last()) < len
            &&& forall|i: int|
                0 <= i < sizes.len() - 1 ==> #[trigger] sizes[i + 1] == if sizes[i] <= 1024 {
                    2 * sizes[i]
                } else {
                    2048
                }
        }),
    decreases len,
{
    let sizes = arena_segments(first, len);
    if len <= first {
        assert(sizes.skip(1) =~= Seq::empty());
        assert(total_size(sizes.skip(1)) == 0);
    } else {
        let next = next_segment_capacity(first);
        let rest = arena_segments(next, (len - first) as nat);
        arena_segments_are_as_few_as_can_be(next, (len - first) as nat);
        assert(sizes.skip(1) =~= rest);
        assert(sizes.drop_last().skip(1) =~= rest.drop_last());
        if rest.len() == 1 {
            assert(total_size(rest.drop_last()) == 0);
        }
        assert forall|i: int| 0 <= i < sizes.len() - 1 implies #[trigger] sizes[i + 1] == if sizes[i]
            <= 1024 {
            2 * sizes[i]
        } else {
            2048
        } by {
            if i > 0 {
                assert(sizes[i] == rest[i - 1]);
                assert(sizes[i + 1] == rest[(i - 1) + 1]);
            } else {
                assert(sizes[1] == rest[0]);
            }
        }
    }
}

/// A line that continues another starts with its bytes, in the same segments as far as
/// those were full.
pub proof fn continued_lines_keep_their_start(line: SegmentedLine, earlier: SegmentedLine)
    requires
        line.wf(),
        earlier.wf(),
        line.extends(&earlier),
    ensures
        earlier@.is_prefix_of(line@),
        forall|i: int|
            0 <= i < earlier.frames().len() && earlier.parts()[i].len() == earlier.sizes()[i].capacity
                ==> #[trigger] line.frames()[i] == earlier.frames()[i],
        forall|i: int|
            0 <= i < earlier.frames().len() ==> #[trigger] line.sizes()[i] == earlier.sizes()[i],
{
    lemma_extended_prefix(line.parts(), earlier.parts());
    let (a, b) = (earlier.sizes(), line.sizes());
    assert(a =~= b.subrange(0, a.len() as int));
}

proof fn lemma_extended_prefix(later: Seq<Seq<u8>>, parts: Seq<Seq<u8>>)
    requires
        0 < parts.len() <= later.len(),
        forall|i: int| 0 <= i < parts.len() - 1 ==> #[trigger] later[i] == parts[i],
        parts[parts.len() - 1].is_prefix_of(later[parts.len() - 1]),
    ensures
        parts.flatten().is_prefix_of(later.flatten()),
    decreases parts.len(),
{
    let (a, b) = (parts.flatten(), later.flatten());
    assert(b == later[0] + later.drop_first().flatten());
    if parts.len() == 1 {
        parts.lemma_flatten_singleton();
        assert(a =~= b.subrange(0, a.len() as int)) by {
            let (x, y) = (parts[0], later[0]);
            assert(x =~= y.subrange(0, x.len() as int));
        }
    } else {
        let (p, l) = (parts.drop_first(), later.drop_first());
        assert(later[0] == parts[0]);
        assert forall|i: int| 0 <= i < p.len() - 1 implies #[trigger] l[i] == p[i] by {
            assert(later[i + 1] == parts[i + 1]);
        }
        lemma_extended_prefix(l, p);
        assert(a == parts[0] + p.flatten());
        let (x, y) = (p.flatten(), l.flatten());
        assert(x =~= y.subrange(0, x.len() as int));
        assert(a =~= b.subrange(0, a.len() as int));
    }
}

/// The filled segments are the segments without those that are empty.
pub proof fn filled_parts_leave_out_the_empty(line: SegmentedLine)
    requires
        line.wf(),
    ensures
        line.filled_parts() == line.parts().filter(|part: Seq<u8>| part.len() > 0),
{
    reveal(Seq::filter);
    let filled = |part: Seq<u8>| part.len() > 0;
    let parts = line.parts();
    filled_parts_are_the_line(line);
    if line@.len() == 0 {
        if parts.len() > 1 {
            assert(parts[1].len() > 0);
            parts.lemma_flatten_length_ge_single_element_length(1);
        }
        parts.lemma_flatten_singleton();
        assert(parts.drop_last() =~= Seq::empty());
        assert(parts.drop_last().filter(filled) =~= Seq::empty());
        assert(parts.filter(filled) =~= Seq::empty());
    } else {
        assert forall|i: int| 0 <= i < parts.len() implies (#[trigger] parts[i]).len() > 0 by {
            assert(line.filled_parts()[i].len() > 0);
        }
        lemma_filter_all(parts);
    }
}

proof fn lemma_filter_all(parts: Seq<Seq<u8>>)
    requires
        forall|i: int| 0 <= i < parts.len() ==> (#[trigger] parts[i]).len() > 0,
    ensures
        parts.filter(|part: Seq<u8>| part.len() > 0) == parts,
    decreases parts.len(),
{
    reveal(Seq::filter);
    if parts.len() > 0 {
        assert forall|i: int| 0 <= i < parts.drop_last().len() implies (
        #[trigger] parts.drop_last()[i]).len() > 0 by {
            assert(parts[i].len() > 0);
        }
        lemma_filter_all(parts.drop_last());
        assert(parts[parts.len() - 1].len() > 0);
        assert(parts.filter(|part: Seq<u8>| part.len() > 0) =~= parts);
    }
}

/// A line answers with its bytes: their number, whether there are any, whether the last
/// is a line feed, and the segments that they fill.
pub proof fn lines_do_what_is_said_of_them(
    line: SegmentedLine,
    len: usize,
    empty: bool,
    ended: bool,
    overflowed: bool,
    segments: Vec<&[u8]>,
)
    requires
        line.wf(),
        call_ensures(SegmentedLine::len, (&line,), len),
        call_ensures(SegmentedLine::is_empty, (&line,), empty),
        call_ensures(SegmentedLine::ends_with_newline, (&line,), ended),
        call_ensures(SegmentedLine::overflowed, (&line,), overflowed),
        call_ensures(SegmentedLine::segments, (&line,), segments),
    ensures
        len == line@.len(),
        empty <==> line@.len() == 0,
        ended <==> line@.len() > 0 && line@[line@.len() - 1] == 10,
        overflowed <==> line.ever_overflowed,
        segments@.map_values(|slice: &[u8]| slice@).flatten() == line@,
        forall|i: int| 0 <= i < segments@.len() ==> (#[trigger] segments@[i])@.len() > 0,
        segments@.len() <= line.sizes().len(),
{
    filled_parts_are_the_line(line);
    assert(segments@.map_values(|slice: &[u8]| slice@).len() == segments@.len());
}

/// A new line is empty, in one segment of the size that was asked for, or more on the
/// heap.
pub proof fn new_lines_are_empty(
    arena: &EphemeralBytesArena,
    capacity: usize,
    line: SegmentedLine,
)
    requires
        0 < capacity <= isize::MAX,
        call_ensures(SegmentedLine::new, (arena, capacity), line),
    ensures
        line@.len() == 0,
        !line.ever_overflowed,
        line.sizes().len() == 1,
        line.sizes()[0].capacity >= capacity,
        !line.sizes()[0].on_heap ==> line.sizes()[0].capacity == capacity,
{
}

/// Appending adds the bytes at the end, takes new segments exactly where they do not
/// fit into the last one, and puts that on record; cutting keeps the start.
pub proof fn lines_grow_and_shrink_at_the_end(arena: &EphemeralBytesArena, bytes: &[u8], len: usize)
    ensures
        forall|changing: &mut SegmentedLine| #[trigger]
            call_ensures(SegmentedLine::append, (changing, arena, bytes), ()) ==> {
                let before = *changing;
                let after = *final(changing);
                &&& after@ == before@ + bytes@
                &&& after.ever_overflowed <==> before.ever_overflowed || bytes@.len()
                    > before.room()
                &&& after.sizes().len() > before.sizes().len() <==> bytes@.len() > before.room()
                &&& after.extends(&before)
            },
        forall|changing: &mut SegmentedLine| #[trigger]
            call_ensures(SegmentedLine::truncate, (changing, len), ()) ==> {
                let before = *changing;
                let after = *final(changing);
                &&& len <= before@.len() ==> after@ == before@.take(len as int)
                &&& len > before@.len() ==> after@ == before@
                &&& after.ever_overflowed == before.ever_overflowed
                &&& before.extends(&after)
            },
{
    assert forall|changing: &mut SegmentedLine| #[trigger]
        call_ensures(SegmentedLine::truncate, (changing, len), ()) implies {
        let before = *changing;
        let after = *final(changing);
        &&& len <= before@.len() ==> after@ == before@.take(len as int)
        &&& len > before@.len() ==> after@ == before@
        &&& after.ever_overflowed == before.ever_overflowed
        &&& before.extends(&after)
    } by {
        let before = *changing;
        assert(before@.take(before@.len() as int) =~= before@);
    }
}

/// It is told of a line that it lies in the arena exactly where none of its segments is
/// on the heap.
pub proof fn lines_in_the_arena_are_told(line: SegmentedLine, in_arena: bool)
    requires
        line.wf(),
        call_ensures(SegmentedLine::is_in_arena, (&line,), in_arena),
    ensures
        in_arena <==> !line.sizes().any(|size: SegmentSize| size.on_heap),
{
    assert(forall|i: int|
        0 <= i < line.sizes().len() && #[trigger] line.sizes()[i].on_heap ==> (
        |size: SegmentSize| size.on_heap)(line.sizes()[i]));
}

} // verus!
