use std::collections::VecDeque;

use brz_ds::EphemeralBytesArena;
use logs::batch::vectored_groups;
use logs::duration::Duration;
use logs::event::QueuedLine;
use logs::format::Destination;
use logs::line::SegmentedLine;
use logs::rotation::RotationSchedule;
use logs::worker::{earliest_deadline, time_left, Action, Command, Event, Worker};
use logs::{FlushPolicy, RotationPolicy};

const SECOND: u64 = 1_000_000_000;

fn line(destination: Destination, text: &str) -> QueuedLine {
    let arena = EphemeralBytesArena::new(1024);
    let mut bytes = SegmentedLine::new(&arena, 64);
    bytes.append(&arena, text.as_bytes());
    QueuedLine { destination, bytes }
}

fn info(text: &str) -> Command<u32> {
    Command::Line(line(Destination::Info, text))
}

fn policy() -> FlushPolicy {
    FlushPolicy::IntervalAndError(Duration::from_secs(1))
}

/// Performs actions on a script of commands, and notes down what it did.
struct Bench {
    worker: Worker<u32>,
    queue: VecDeque<Command<u32>>,
    now: u64,
    wall: i128,
    fail: Option<&'static str>,
    notes: Vec<String>,
}

impl Bench {
    fn new(
        flush_policy: FlushPolicy,
        rotation: Option<RotationSchedule>,
        limit: usize,
        queue: Vec<Command<u32>>,
    ) -> (Self, Action<u32>) {
        let (worker, action) = Worker::new(flush_policy, rotation, limit, 0);
        let bench = Bench {
            worker,
            queue: queue.into(),
            now: 0,
            wall: 0,
            fail: None,
            notes: Vec::new(),
        };
        (bench, action)
    }

    fn outcome(&self, action: &str) -> Event<u32> {
        if self.fail == Some(action) {
            Event::Failed(format!("{action} failed"))
        } else {
            Event::Done
        }
    }

    fn event(&mut self, action: Action<u32>) -> Option<Event<u32>> {
        Some(match action {
            Action::Receive(_) => match self.queue.pop_front() {
                Some(command) => Event::Command(command),
                None => Event::Disconnected,
            },
            Action::TryReceive => match self.queue.pop_front() {
                Some(command) => Event::Command(command),
                None => Event::Empty,
            },
            Action::ReadClock => {
                self.notes.push("clock".to_string());
                Event::Clock(self.now)
            }
            Action::ReadWallClock => {
                self.notes.push("wall".to_string());
                Event::WallClock(self.wall)
            }
            Action::Rotate(suffix) => {
                self.notes.push(format!("rotate {suffix}"));
                self.outcome("rotate")
            }
            Action::Write => {
                let bytes = vectored_groups(self.worker.batch(), Destination::Info).concat();
                let text = String::from_utf8(bytes.concat()).unwrap();
                self.notes
                    .push(format!("write {} {text}", self.worker.batch().len()));
                self.outcome("write")
            }
            Action::Flush => {
                self.notes.push("flush".to_string());
                self.outcome("flush")
            }
            Action::Reply(reply, outcome) => {
                self.notes.push(format!("reply {reply} {outcome:?}"));
                Event::Done
            }
            Action::Stop(outcome) => {
                self.notes.push(format!("stop {outcome:?}"));
                return None;
            }
        })
    }

    fn run(mut self, first: Action<u32>) -> Vec<String> {
        let mut action = first;
        while let Some(event) = self.event(action) {
            assert!(self.worker.accepts(&event));
            action = self.worker.step(event);
        }
        self.notes
    }
}

#[test]
fn lines_are_written_in_batches_and_flushed_at_the_end() {
    let (bench, first) = Bench::new(
        policy(),
        None,
        2,
        vec![info("a"), info("b"), info("c")],
    );
    assert_eq!(
        bench.run(first),
        vec![
            "write 2 ab",
            "clock",
            "write 1 c",
            "clock",
            "flush",
            "stop Ok(())"
        ]
    );
}

#[test]
fn a_flush_is_answered_behind_the_lines_before_it() {
    let (bench, first) = Bench::new(
        policy(),
        None,
        16,
        vec![
            info("a"),
            info("b"),
            Command::Flush(7),
            info("c"),
            Command::Shutdown(8),
            info("never"),
        ],
    );
    assert_eq!(
        bench.run(first),
        vec![
            "write 2 ab",
            "clock",
            "flush",
            "reply 7 Ok(())",
            "clock",
            "write 1 c",
            "clock",
            "flush",
            "reply 8 Ok(())",
            "stop Ok(())"
        ]
    );
}

#[test]
fn files_do_not_depend_on_how_the_queue_is_drained() {
    let mut files = Vec::new();
    for (flush_policy, limit) in [(policy(), 1), (FlushPolicy::EveryLine, 2), (policy(), 16)] {
        let (bench, first) = Bench::new(
            flush_policy,
            None,
            limit,
            vec![
                info("a"),
                Command::Flush(1),
                info("b"),
                info("c"),
                Command::Shutdown(2),
                info("never"),
            ],
        );
        let notes = bench.run(first);
        assert_eq!(notes.last().unwrap(), "stop Ok(())");
        let written: String = notes
            .iter()
            .filter_map(|note| note.strip_prefix("write "))
            .map(|note| note.split_once(' ').unwrap().1)
            .collect();
        files.push(written);
    }
    assert_eq!(files, vec!["abc", "abc", "abc"]);
}

#[test]
fn a_failed_flush_is_answered_and_ends_the_work() {
    let (mut bench, first) = Bench::new(
        FlushPolicy::Interval(Duration::from_secs(1)),
        None,
        16,
        vec![Command::Flush(3), info("never")],
    );
    bench.fail = Some("flush");
    assert_eq!(
        bench.run(first),
        vec![
            "flush",
            "reply 3 Err(\"flush failed\")",
            "stop Err(\"flush failed\")"
        ]
    );
}

#[test]
fn a_failed_write_ends_the_work() {
    let (mut bench, first) = Bench::new(policy(), None, 16, vec![info("a"), Command::Flush(3)]);
    bench.fail = Some("write");
    assert_eq!(
        bench.run(first),
        vec!["write 1 a", "stop Err(\"write failed\")"]
    );
}

#[test]
fn error_lines_are_flushed_at_once() {
    let error = || Command::Line(line(Destination::Error, "e"));
    let (bench, first) = Bench::new(policy(), None, 16, vec![error()]);
    assert_eq!(
        bench.run(first),
        vec!["write 1 ", "flush", "clock", "flush", "stop Ok(())"]
    );
    let interval = FlushPolicy::Interval(Duration::from_secs(1));
    let (bench, first) = Bench::new(interval, None, 16, vec![error()]);
    assert_eq!(
        bench.run(first),
        vec!["write 1 ", "clock", "flush", "stop Ok(())"]
    );
    let (bench, first) = Bench::new(FlushPolicy::EveryLine, None, 1, vec![info("a"), info("b")]);
    assert_eq!(
        bench.run(first),
        vec!["write 1 a", "flush", "write 1 b", "flush", "flush", "stop Ok(())"]
    );
}

#[test]
fn a_passed_deadline_flushes_behind_a_batch() {
    let (mut bench, first) = Bench::new(policy(), None, 16, vec![info("a")]);
    bench.now = SECOND;
    assert_eq!(
        bench.run(first),
        vec!["write 1 a", "clock", "flush", "clock", "flush", "stop Ok(())"]
    );
}

#[test]
fn deadlines_flush_and_are_set_anew() {
    let (mut worker, first) = Worker::<u32>::new(policy(), None, 16, 5);
    assert!(matches!(first, Action::Receive(Some(deadline)) if deadline == 5 + SECOND as u128));
    assert!(matches!(worker.step(Event::Deadline), Action::ReadClock));
    assert!(matches!(
        worker.step(Event::Clock(4 + SECOND)),
        Action::Receive(Some(deadline)) if deadline == 5 + SECOND as u128
    ));
    assert!(matches!(worker.step(Event::Deadline), Action::ReadClock));
    assert!(matches!(worker.step(Event::Clock(7 + SECOND)), Action::Flush));
    assert!(matches!(
        worker.step(Event::Done),
        Action::Receive(Some(deadline)) if deadline == 7 + 2 * SECOND as u128
    ));
}

#[test]
fn without_an_interval_there_is_no_deadline() {
    let (_, first) = Worker::<u32>::new(FlushPolicy::EveryLine, None, 16, 5);
    assert!(matches!(first, Action::Receive(None)));
}

#[test]
fn files_are_rotated_before_the_batch_is_written() {
    let schedule = RotationSchedule::at(RotationPolicy::Hourly, 0, 0).unwrap();
    let (mut bench, first) = Bench::new(
        policy(),
        Some(schedule),
        16,
        vec![info("a"), Command::Shutdown(1)],
    );
    bench.now = 3600 * SECOND;
    bench.wall = 3600 * SECOND as i128;
    assert_eq!(
        bench.run(first),
        vec![
            "clock",
            "wall",
            "rotate 19700101-08",
            "write 1 a",
            "clock",
            "flush",
            "clock",
            "flush",
            "reply 1 Ok(())",
            "stop Ok(())"
        ]
    );
}

#[test]
fn a_clock_that_was_set_back_rotates_nothing() {
    let schedule = RotationSchedule::at(RotationPolicy::Hourly, 0, 0).unwrap();
    let (mut worker, first) = Worker::<u32>::new(FlushPolicy::EveryLine, Some(schedule), 16, 0);
    let hour = 3600 * SECOND;
    assert!(matches!(first, Action::Receive(Some(deadline)) if deadline == hour as u128));
    assert!(matches!(worker.step(Event::Deadline), Action::ReadClock));
    assert!(matches!(worker.step(Event::Clock(hour)), Action::ReadWallClock));
    assert!(matches!(
        worker.step(Event::WallClock(-1)),
        Action::Receive(Some(deadline)) if deadline == hour as u128 + 1
    ));
    assert_eq!(
        worker.rotation.map(|schedule| schedule.current_period),
        Some(schedule.current_period)
    );
}

#[test]
fn a_failed_rotation_ends_the_work() {
    let schedule = RotationSchedule::at(RotationPolicy::Daily, 0, 0).unwrap();
    let (mut bench, first) = Bench::new(policy(), Some(schedule), 16, vec![info("a")]);
    bench.now = 24 * 3600 * SECOND;
    bench.wall = 24 * 3600 * SECOND as i128;
    bench.fail = Some("rotate");
    assert_eq!(
        bench.run(first),
        vec![
            "clock",
            "wall",
            "rotate 19700101",
            "stop Err(\"rotate failed\")"
        ]
    );
}

#[test]
fn periods_without_a_name_end_the_work() {
    let mut schedule = RotationSchedule::at(RotationPolicy::Daily, 0, 0).unwrap();
    schedule.current_period.0 = i64::MIN as i128;
    schedule.next_deadline = 0;
    let (bench, first) = Bench::new(policy(), Some(schedule), 16, vec![info("a")]);
    assert_eq!(
        bench.run(first),
        vec![
            "clock",
            "wall",
            "stop Err(\"log rotation timestamp is out of range\")"
        ]
    );
}

#[test]
fn events_that_do_not_fit_are_not_accepted() {
    let schedule = RotationSchedule::at(RotationPolicy::Hourly, 0, 0).unwrap();
    let (mut worker, _) = Worker::<u32>::new(policy(), Some(schedule), 16, 0);
    assert!(!worker.accepts(&Event::Done));
    assert!(!worker.accepts(&Event::Empty));
    assert!(worker.accepts(&Event::Disconnected));
    worker.step(Event::Deadline);
    assert!(!worker.accepts(&Event::Deadline));
    worker.step(Event::Clock(u64::MAX));
    assert!(!worker.accepts(&Event::WallClock(i128::MAX)));
    assert!(worker.accepts(&Event::WallClock(0)));
}

#[test]
fn deadlines_are_compared_and_counted_down() {
    assert_eq!(earliest_deadline(None, None), None);
    assert_eq!(earliest_deadline(Some(3), None), Some(3));
    assert_eq!(earliest_deadline(None, Some(4)), Some(4));
    assert_eq!(earliest_deadline(Some(5), Some(4)), Some(4));
    assert_eq!(time_left(10, 10), Duration::new(0, 0));
    assert_eq!(time_left(9, 10), Duration::new(0, 0));
    assert_eq!(time_left(2_500_000_010, 10), Duration::new(2, 500_000_000));
    assert_eq!(time_left(u128::MAX, 0), Duration::new(u64::MAX, 999_999_999));
}
