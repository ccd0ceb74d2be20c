use std::sync::mpsc;

use brz_ds::EphemeralBytesArena;
use logs::event::{
    DropCount, EnqueueFailure, EventWriter, QueuedLine, TRUNCATED_SUFFIX,
};
use logs::format::Destination;
use logs::hint::{LineCapacityHint, LOW_USAGE_SAMPLE_COUNT, MIN_INITIAL_LINE_BYTES};
use logs::init::line_buffers;
use logs::line::SegmentedLine;
use logs::{LogsConfig, OverflowPolicy};

fn contents(line: &SegmentedLine) -> Vec<u8> {
    line.segments().concat()
}

fn finished(limit: usize, pieces: &[&[u8]]) -> Option<Vec<u8>> {
    let arena = EphemeralBytesArena::new(8 * 1024);
    let mut writer = EventWriter::new(Destination::Warn, &arena, limit, 16);
    for piece in pieces {
        assert_eq!(writer.write(piece), piece.len());
    }
    writer.finish().map(|queued| {
        assert_eq!(queued.destination, Destination::Warn);
        assert_eq!(queued.bytes.len(), contents(&queued.bytes).len());
        contents(&queued.bytes)
    })
}

#[test]
fn event_buffer_grows_in_segments_without_moving_existing_bytes() {
    let config = LogsConfig::default()
        .with_arena_chunk_bytes(8 * 1024)
        .with_max_line_bytes(8 * 1024);
    let (arena, hint) = line_buffers(&config);
    let mut writer =
        EventWriter::new(Destination::Info, &arena, config.max_line_bytes, hint.capacity());

    assert_eq!(writer.line.primary.capacity(), MIN_INITIAL_LINE_BYTES);
    let primary_pointer = writer.line.primary.as_slice().as_ptr();
    assert_eq!(writer.write(&[b'x'; 4 * 1024]), 4 * 1024);
    let line = &writer.line;
    assert_eq!(line.primary.as_slice().as_ptr(), primary_pointer);
    assert_eq!(line.primary.capacity(), 512);
    assert_eq!(line.overflow[0].capacity(), 1024);
    assert_eq!(line.overflow[1].capacity(), 2048);
    assert_eq!(line.overflow[2].capacity(), 2048);
    assert!(line.segments().iter().all(|segment| !segment.is_empty()));
    assert!(line.is_in_arena());
    let queued = writer.finish().unwrap();

    assert_eq!(contents(&queued.bytes).len(), 4 * 1024 + 1);
}

#[test]
fn initial_capacity_adapts_between_512_bytes_and_2_kib() {
    let mut hint = LineCapacityHint::new(64 * 1024);
    assert_eq!(hint.capacity(), 512);

    hint.observe(513, true);
    assert_eq!(hint.capacity(), 1024);
    hint.observe(1025, true);
    assert_eq!(hint.capacity(), 2048);
    hint.observe(4096, true);
    assert_eq!(hint.capacity(), 2048);

    for _ in 0..LOW_USAGE_SAMPLE_COUNT {
        hint.observe(128, false);
    }
    assert_eq!(hint.capacity(), 1024);
    for _ in 0..LOW_USAGE_SAMPLE_COUNT {
        hint.observe(128, false);
    }
    assert_eq!(hint.capacity(), 512);
}

#[test]
fn low_usage_has_to_be_consecutive() {
    let mut hint = LineCapacityHint::new(64 * 1024);
    hint.observe(600, true);
    for _ in 0..LOW_USAGE_SAMPLE_COUNT - 1 {
        hint.observe(256, false);
    }
    hint.observe(257, false);
    assert_eq!(hint.low_usage_count, 0);
    for _ in 0..LOW_USAGE_SAMPLE_COUNT - 1 {
        hint.observe(256, false);
    }
    assert_eq!(hint.capacity(), 1024);
    hint.observe(256, false);
    assert_eq!(hint.capacity(), 512);
    hint.observe(1, false);
    assert_eq!(hint.low_usage_count, 0);
}

#[test]
fn short_lines_limit_the_initial_capacity() {
    let mut hint = LineCapacityHint::new(100);
    assert_eq!((hint.minimum, hint.maximum, hint.capacity()), (100, 100, 100));
    hint.observe(101, true);
    assert_eq!(hint.capacity(), 100);

    let mut hint = LineCapacityHint::new(700);
    hint.observe(600, true);
    assert_eq!(hint.capacity(), 700);
    for _ in 0..LOW_USAGE_SAMPLE_COUNT {
        hint.observe(1, false);
    }
    assert_eq!(hint.capacity(), 512);
}

#[test]
fn finished_lines_teach_the_hint() {
    let arena = EphemeralBytesArena::new(8 * 1024);
    let mut hint = LineCapacityHint::new(4 * 1024);
    let mut writer = EventWriter::new(Destination::Info, &arena, 4 * 1024, hint.capacity());
    writer.write(&[b'x'; 512]);
    let line = writer.finish().unwrap().bytes;
    assert!(line.overflowed());
    hint.observe_line(&line);
    assert_eq!(hint.capacity(), 1024);
}

#[test]
fn drop_newest_counts_a_line_when_the_queue_is_full() {
    let (sender, _receiver) = mpsc::sync_channel::<QueuedLine>(1);
    let arena = EphemeralBytesArena::new(8 * 1024);
    let hint = LineCapacityHint::new(4 * 1024);
    let mut dropped_lines = 0;
    let mut queue_dropped = 0;

    for text in ["first", "dropped"] {
        let mut writer = EventWriter::new(Destination::Info, &arena, 4 * 1024, hint.capacity());
        writer.write(text.as_bytes());
        let queued = writer.finish().unwrap();
        assert!(!OverflowPolicy::DropNewest.waits_for_room());
        let failure = match sender.try_send(queued) {
            Ok(()) => None,
            Err(mpsc::TrySendError::Full(_)) => Some(EnqueueFailure::Full),
            Err(mpsc::TrySendError::Disconnected(_)) => Some(EnqueueFailure::Disconnected),
        };
        let count = DropCount::of(failure);
        dropped_lines += count.dropped_lines;
        queue_dropped += count.queue_dropped;
    }

    assert_eq!(dropped_lines, 1);
    assert_eq!(queue_dropped, 1);
}

#[test]
fn a_closed_queue_loses_lines_without_being_full() {
    let lost = DropCount::of(Some(EnqueueFailure::Disconnected));
    assert_eq!((lost.dropped_lines, lost.queue_dropped), (1, 0));
    let sent = DropCount::of(None);
    assert_eq!((sent.dropped_lines, sent.queue_dropped), (0, 0));
    assert!(OverflowPolicy::Block.waits_for_room());
}

#[test]
fn long_lines_are_bounded_and_marked_across_segments() {
    let config = LogsConfig::default().with_max_line_bytes(4 * 1024);
    let (arena, hint) = line_buffers(&config);
    let mut writer =
        EventWriter::new(Destination::Info, &arena, config.max_line_bytes, hint.capacity());

    writer.write(&[b'x'; 8 * 1024]);
    let queued = writer.finish().unwrap();

    let bytes = contents(&queued.bytes);
    assert_eq!(bytes.len(), 4 * 1024);
    assert!(bytes.ends_with(&TRUNCATED_SUFFIX));
}

#[test]
fn lines_end_with_one_line_feed() {
    assert_eq!(TRUNCATED_SUFFIX, *b"...[truncated]\n");
    assert_eq!(finished(64, &[]), None);
    assert_eq!(finished(64, &[b""]), None);
    assert_eq!(finished(64, &[b"one", b" two"]), Some(b"one two\n".to_vec()));
    assert_eq!(finished(64, &[b"one\n"]), Some(b"one\n".to_vec()));
    assert_eq!(finished(20, &[&[b'x'; 19]]), Some([[b'x'; 19].as_slice(), b"\n"].concat()));
}

#[test]
fn lines_at_the_limit_are_cut_only_without_a_line_feed() {
    let marked = [b"xxxxx".as_slice(), b"...[truncated]\n"].concat();
    assert_eq!(finished(20, &[&[b'x'; 20]]), Some(marked.clone()));
    assert_eq!(finished(20, &[&[b'x'; 21]]), Some(marked.clone()));
    let whole = [[b'x'; 19].as_slice(), b"\n"].concat();
    assert_eq!(finished(20, &[&whole]), Some(whole.clone()));
    assert_eq!(finished(20, &[&whole, b"y"]), Some(marked));
    assert_eq!(finished(10, &[&[b'x'; 11]]), Some(b"...[truncated]\n".to_vec()));
    assert_eq!(finished(0, &[b"x"]), None);
}

#[test]
fn how_a_text_is_cut_into_writes_does_not_matter() {
    let text: Vec<u8> = (0..100u8).collect();
    let whole = finished(64, &[&text]);
    let pieces: Vec<&[u8]> = text.chunks(7).collect();
    assert_eq!(finished(64, &pieces), whole);
    assert_eq!(whole.unwrap()[..49], text[..49]);
}

#[test]
fn segmented_lines_shrink_from_the_end() {
    let arena = EphemeralBytesArena::new(8 * 1024);
    let mut line = SegmentedLine::new(&arena, 8);
    assert!(line.is_empty());
    assert!(!line.ends_with_newline());
    line.append(&arena, b"0123456789abcdef0123456789\n");
    assert_eq!(line.len(), 27);
    assert!(line.overflowed());
    assert!(line.ends_with_newline());
    assert_eq!(contents(&line), b"0123456789abcdef0123456789\n");
    line.truncate(40);
    assert_eq!(line.len(), 27);
    line.truncate(10);
    assert_eq!(contents(&line), b"0123456789");
    line.truncate(8);
    assert_eq!(contents(&line), b"01234567");
    line.truncate(3);
    assert_eq!(contents(&line), b"012");
    line.append(&arena, b"xyz");
    assert_eq!(contents(&line), b"012xyz");
    line.truncate(0);
    assert!(line.is_empty());
    assert!(line.segments().is_empty());
    assert!(line.overflowed());
}

#[test]
fn large_segments_lie_on_the_heap() {
    let arena = EphemeralBytesArena::new(16);
    assert!(SegmentedLine::new(&arena, 16).is_in_arena());
    assert!(!SegmentedLine::new(&arena, 17).is_in_arena());
    let mut line = SegmentedLine::new(&arena, 8);
    line.append(&arena, &[b'x'; 8]);
    assert!(line.is_in_arena());
    line.append(&arena, &[b'x'; 40]);
    assert!(!line.is_in_arena());
    assert_eq!(line.len(), 48);
}

#[test]
fn the_end_of_a_line_overflows_only_where_it_does_not_fit() {
    let arena = EphemeralBytesArena::new(8 * 1024);
    let overflowed = |capacity: usize, limit: usize, bytes: usize| {
        let mut writer = EventWriter::new(Destination::Info, &arena, limit, capacity);
        writer.write(&vec![b'x'; bytes]);
        writer.finish().unwrap().bytes.overflowed()
    };
    assert!(!overflowed(16, 64, 15));
    assert!(overflowed(16, 64, 16));
    assert!(!overflowed(20, 20, 21));
    assert!(overflowed(19, 20, 21));
    assert!(!overflowed(14, 10, 4));
    assert!(overflowed(14, 10, 11));
    assert!(!overflowed(15, 10, 11));
}

#[test]
fn buffers_follow_the_configuration() {
    let (arena, hint) = line_buffers(&LogsConfig::default().with_max_line_bytes(100));
    assert_eq!(hint, LineCapacityHint::new(100));
    assert_eq!(arena.alloc(100).capacity(), 100);
    assert_eq!(arena.chunk_capacity(), 16 * 1024 * 1024);
}
