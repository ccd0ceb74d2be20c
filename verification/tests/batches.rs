use brz_ds::EphemeralBytesArena;
use logs::batch::{
    vectored_groups, PendingWrite, WriteOutcome, WriteStep, MAX_VECTORED_SLICES,
};
use logs::event::QueuedLine;
use logs::format::Destination;
use logs::line::SegmentedLine;

fn line(arena: &EphemeralBytesArena, destination: Destination, text: &str) -> QueuedLine {
    let mut bytes = SegmentedLine::new(arena, 8);
    bytes.append(arena, text.as_bytes());
    QueuedLine { destination, bytes }
}

fn file(lines: &[QueuedLine], destination: Destination) -> String {
    let bytes = vectored_groups(lines, destination).concat().concat();
    String::from_utf8(bytes).unwrap()
}

#[test]
fn file_batches_cross_the_vectored_slice_limit_without_reordering() {
    let arena = EphemeralBytesArena::new(8 * 1024);
    let mut lines = Vec::new();
    for index in 0..(MAX_VECTORED_SLICES + 17) {
        lines.push(line(&arena, Destination::Info, &format!("{index:04}\n")));
    }
    lines.push(line(&arena, Destination::Warn, "warning\n"));

    let expected = (0..(MAX_VECTORED_SLICES + 17))
        .map(|index| format!("{index:04}\n"))
        .collect::<String>();
    assert_eq!(file(&lines, Destination::Info), expected);
    assert_eq!(file(&lines, Destination::Warn), "warning\n");
    assert_eq!(file(&lines, Destination::Error), "");

    let groups = vectored_groups(&lines, Destination::Info);
    assert_eq!(groups.len(), 2);
    assert_eq!(groups[0].len(), 1024);
    assert_eq!(groups[1].len(), 17);
    assert!(vectored_groups(&lines, Destination::Error).is_empty());
}

#[test]
fn full_groups_leave_no_empty_one() {
    let arena = EphemeralBytesArena::new(8 * 1024);
    let lines: Vec<QueuedLine> = (0..2 * MAX_VECTORED_SLICES)
        .map(|_| line(&arena, Destination::Slow, "x\n"))
        .collect();
    let groups = vectored_groups(&lines, Destination::Slow);
    assert_eq!(groups.len(), 2);
    assert!(groups.iter().all(|group| group.len() == MAX_VECTORED_SLICES));
}

#[test]
fn long_and_empty_lines_are_cut_into_filled_slices() {
    let arena = EphemeralBytesArena::new(8 * 1024);
    let lines = [
        line(&arena, Destination::Info, "0123456789abcdef0123456789\n"),
        line(&arena, Destination::Info, ""),
        line(&arena, Destination::Warn, "w\n"),
        line(&arena, Destination::Info, "end\n"),
    ];
    let groups = vectored_groups(&lines, Destination::Info);
    assert_eq!(groups.len(), 1);
    assert!(groups[0].iter().all(|slice| !slice.is_empty()));
    assert_eq!(
        file(&lines, Destination::Info),
        "0123456789abcdef0123456789\nend\n"
    );
}

#[test]
fn two_batches_write_what_one_does() {
    let arena = EphemeralBytesArena::new(8 * 1024);
    let lines: Vec<QueuedLine> = (0..10)
        .map(|index| line(&arena, Destination::Api, &format!("{index}\n")))
        .collect();
    let split = file(&lines[..4], Destination::Api) + &file(&lines[4..], Destination::Api);
    assert_eq!(split, file(&lines, Destination::Api));
}

#[test]
fn partial_writes_go_on_where_they_stopped() {
    let slices: Vec<&[u8]> = vec![b"abc", b"d", b"efgh"];
    let mut pending = PendingWrite::new(slices);
    let mut written = Vec::new();
    for count in [2, 1, 1, 3] {
        let bytes = pending.slices.concat();
        let before = pending.slices.len();
        written.extend_from_slice(&bytes[..count]);
        assert_eq!(
            pending.record(WriteOutcome::Wrote(count)),
            WriteStep::WriteAgain
        );
        assert_eq!(
            pending.record(WriteOutcome::Interrupted),
            WriteStep::WriteAgain
        );
        assert!(pending.slices.iter().all(|slice| !slice.is_empty()));
        assert!(pending.slices.len() <= before);
    }
    assert!(!pending.is_finished());
    written.extend_from_slice(&pending.slices.concat());
    assert_eq!(pending.record(WriteOutcome::Wrote(1)), WriteStep::Finished);
    assert!(pending.is_finished());
    assert_eq!(written, b"abcdefgh");
}

#[test]
fn a_continued_group_carries_no_more_slices() {
    let arena = EphemeralBytesArena::new(8 * 1024);
    let lines: Vec<QueuedLine> = (0..MAX_VECTORED_SLICES)
        .map(|_| line(&arena, Destination::Info, "ab\n"))
        .collect();
    let group = vectored_groups(&lines, Destination::Info).remove(0);
    let segments: Vec<&[u8]> = lines.iter().flat_map(|line| line.bytes.segments()).collect();
    assert_eq!(group, segments);
    let mut pending = PendingWrite::new(group);
    pending.record(WriteOutcome::Wrote(1));
    assert_eq!(pending.slices.len(), 1024);
    assert_eq!(pending.slices[0], b"b\n");
    assert_eq!(pending.slices[1..], segments[1..]);
    pending.record(WriteOutcome::Wrote(2));
    assert_eq!(pending.slices.len(), 1023);
}

#[test]
fn failed_and_empty_writes_end_the_batch() {
    let mut pending = PendingWrite::new(vec![b"abc".as_slice()]);
    assert_eq!(
        pending.record(WriteOutcome::Wrote(0)),
        WriteStep::NothingWritten
    );
    assert_eq!(pending.record(WriteOutcome::Failed), WriteStep::Failed);
    assert_eq!(pending.slices.concat(), b"abc");
    assert!(PendingWrite::new(Vec::new()).is_finished());
}
