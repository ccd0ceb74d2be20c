//! What the library relies on of the byte arena of the `brz_ds` crate.

use brz_ds::{EphemeralBytesArena, EphemeralBytesMut};
use vstd::prelude::*;

verus! {

/// The shared arena out of which line segments are allocated.
#[verifier::external_type_specification]
#[verifier::external_body]
pub struct ExEphemeralBytesArena(brz_ds::EphemeralBytesArena);

/// One writable segment of fixed capacity.
#[verifier::external_type_specification]
#[verifier::external_body]
pub struct ExEphemeralBytesMut(brz_ds::EphemeralBytesMut);

/// The bytes written into a frame so far.
pub uninterp spec fn frame_bytes(frame: EphemeralBytesMut) -> Seq<u8>;

/// The number of bytes a frame can hold. It is fixed when the frame is made.
pub uninterp spec fn frame_capacity(frame: EphemeralBytesMut) -> nat;

/// Whether a frame lies on the heap. It is fixed when the frame is made.
pub uninterp spec fn frame_on_heap(frame: EphemeralBytesMut) -> bool;

/// The number of bytes in each of the two chunks of an arena.
pub uninterp spec fn arena_chunk_bytes(arena: EphemeralBytesArena) -> nat;

/// `EphemeralBytesArena::new`: an arena with two chunks of the given size in one
/// buffer. It panics on no size and on sizes from 4 GiB - 1 on, and the buffer
/// holds no more than `isize::MAX` bytes.
pub assume_specification[ EphemeralBytesArena::new ](chunk_capacity: usize) -> (arena:
    EphemeralBytesArena)
    requires
        0 < chunk_capacity < u32::MAX,
        2 * chunk_capacity <= isize::MAX,
    ensures
        arena_chunk_bytes(arena) == chunk_capacity,
;

/// `EphemeralBytesArena::alloc`: an empty frame that holds at least the
/// requested number of bytes. A frame out of the arena has exactly the
/// requested capacity; one from the heap fallback has what `Vec::with_capacity`
/// gives, which may be more. Requests of nothing and of more than a chunk go to
/// the heap. Of any other request it is left open which of the two it is: that
/// depends on the other live frames. The heap fallback panics beyond `isize::MAX`
/// bytes.
pub assume_specification[ EphemeralBytesArena::alloc ](
    arena: &EphemeralBytesArena,
    capacity: usize,
) -> (frame: EphemeralBytesMut)
    requires
        capacity <= isize::MAX,
    ensures
        frame_bytes(frame) == Seq::<u8>::empty(),
        frame_capacity(frame) >= capacity,
        !frame_on_heap(frame) ==> frame_capacity(frame) == capacity,
        capacity == 0 || capacity > arena_chunk_bytes(*arena) ==> frame_on_heap(frame),
;

/// `EphemeralBytesMut::is_heap_allocated`: whether the frame lies on the heap.
pub assume_specification[ EphemeralBytesMut::is_heap_allocated ](frame: &EphemeralBytesMut) -> (r:
    bool)
    ensures
        r == frame_on_heap(*frame),
;

/// `EphemeralBytesMut::capacity`: the fixed capacity of the frame.
pub assume_specification[ EphemeralBytesMut::capacity ](frame: &EphemeralBytesMut) -> (r: usize)
    ensures
        r == frame_capacity(*frame),
;

/// `EphemeralBytesMut::remaining`: the capacity that is not yet written.
pub assume_specification[ EphemeralBytesMut::remaining ](frame: &EphemeralBytesMut) -> (r: usize)
    ensures
        r == frame_capacity(*frame) - frame_bytes(*frame).len(),
;

/// `EphemeralBytesMut::len`: the number of bytes written so far.
pub assume_specification[ EphemeralBytesMut::len ](frame: &EphemeralBytesMut) -> (r: usize)
    ensures
        r == frame_bytes(*frame).len(),
;

/// `EphemeralBytesMut::as_slice`: the bytes written so far.
pub assume_specification[ EphemeralBytesMut::as_slice ](frame: &EphemeralBytesMut) -> (r: &[u8])
    ensures
        r@ == frame_bytes(*frame),
;

/// `EphemeralBytesMut::extend_from_slice`: appends the bytes; the capacity stays, and
/// so does the frame's place in the arena or on the heap. It panics when the bytes do
/// not fit into the remaining capacity.
pub assume_specification[ EphemeralBytesMut::extend_from_slice ](
    frame: &mut EphemeralBytesMut,
    bytes: &[u8],
)
    requires
        bytes@.len() <= frame_capacity(*old(frame)) - frame_bytes(*old(frame)).len(),
    ensures
        frame_bytes(*final(frame)) == frame_bytes(*old(frame)) + bytes@,
        frame_capacity(*final(frame)) == frame_capacity(*old(frame)),
        frame_on_heap(*final(frame)) == frame_on_heap(*old(frame)),
;

/// `EphemeralBytesMut::truncate`: keeps at most the first `len` bytes; the
/// capacity stays, and so does the frame's place in the arena or on the heap.
pub assume_specification[ EphemeralBytesMut::truncate ](frame: &mut EphemeralBytesMut, len: usize)
    ensures
        len <= frame_bytes(*old(frame)).len() ==> frame_bytes(*final(frame)) == frame_bytes(
            *old(frame),
        ).take(len as int),
        len > frame_bytes(*old(frame)).len() ==> frame_bytes(*final(frame)) == frame_bytes(
            *old(frame),
        ),
        frame_capacity(*final(frame)) == frame_capacity(*old(frame)),
        frame_on_heap(*final(frame)) == frame_on_heap(*old(frame)),
;

} // verus!
