//! The worker that moves lines from the queue into the files.
//!
//! The worker decides; whoever runs it performs one action after the other and
//! says what came of each. Points in time that are compared with deadlines are
//! nanoseconds of a clock that never goes back.

use vstd::prelude::*;

use crate::batch::{batches_do_not_show, destination_bytes};
use crate::config::FlushPolicy;
use crate::duration::{Duration, NANOS_PER_SECOND};
use crate::event::QueuedLine;
use crate::format::Destination;
use crate::rotation::{
    has_local_time, is_local_time, is_past_calendar, names_period, period_at, period_second,
    periods_have_one_suffix, periods_in_the_calendar_have_a_name, renewed_schedules_are_current,
    starts_past_calendar, suffix_error, suffix_of, RotationSchedule,
};

verus! {

/// What comes out of the queue. Someone waits at the other end of a reply handle.
pub enum Command<R> {
    Line(QueuedLine),
    Flush(R),
    Shutdown(R),
}

/// What the worker was asked for.
pub enum Request<R> {
    Flush(R),
    Shutdown(R),
}

impl<R> Request<R> {
    /// Where the answer goes.
    pub open spec fn handle(self) -> R {
        match self {
            Request::Flush(reply) => reply,
            Request::Shutdown(reply) => reply,
        }
    }
}

/// What came of an action.
pub enum Event<R> {
    Command(Command<R>),
    Empty,
    Deadline,
    Disconnected,
    Clock(u64),
    WallClock(i128),
    Done,
    Failed(String),
}

/// What is to be done next.
pub enum Action<R> {
    /// Take the next command from the queue; wait for it, but not past a deadline.
    Receive(Option<u128>),
    /// Take the next command from the queue if there is one.
    TryReceive,
    /// Read the clock that never goes back.
    ReadClock,
    /// Read the time of day, in nanoseconds since 1970.
    ReadWallClock,
    /// Archive the files under a suffix.
    Rotate(String),
    /// Write the batch into the files.
    Write,
    /// Flush the files.
    Flush,
    /// Answer a request.
    Reply(R, Result<(), String>),
    /// Stop.
    Stop(Result<(), String>),
}

/// An action with its texts as sequences.
pub enum Deed<R> {
    Receive(Option<u128>),
    TryReceive,
    ReadClock,
    ReadWallClock,
    Rotate(Seq<char>),
    Write,
    Flush,
    Reply(R, Result<(), Seq<char>>),
    Stop(Result<(), Seq<char>>),
}

/// An outcome with its text as a sequence.
pub open spec fn outcome_text(outcome: Result<(), String>) -> Result<(), Seq<char>> {
    match outcome {
        Ok(()) => Ok(()),
        Err(text) => Err(text@),
    }
}

impl<R> View for Action<R> {
    type V = Deed<R>;

    open spec fn view(&self) -> Deed<R> {
        match *self {
            Action::Receive(deadline) => Deed::Receive(deadline),
            Action::TryReceive => Deed::TryReceive,
            Action::ReadClock => Deed::ReadClock,
            Action::ReadWallClock => Deed::ReadWallClock,
            Action::Rotate(suffix) => Deed::Rotate(suffix@),
            Action::Write => Deed::Write,
            Action::Flush => Deed::Flush,
            Action::Reply(reply, outcome) => Deed::Reply(reply, outcome_text(outcome)),
            Action::Stop(outcome) => Deed::Stop(outcome_text(outcome)),
        }
    }
}

/// What a look at the rotation is followed by.
#[derive(Debug, Clone, Copy, PartialEq, Eq, Structural)]
pub enum After {
    WriteBatch,
    FlushIfDue,
}

/// Why the files are being flushed.
#[derive(Debug, Clone, Copy, PartialEq, Eq, Structural)]
pub enum Reason {
    /// The batch that was just written asks for it, or the deadline passed
    /// meanwhile.
    Batch,
    /// The deadline passed, as a look at the clock has shown.
    Deadline(u64),
    /// Someone asked for it.
    Request,
    /// Nothing can come any more.
    Disconnected,
}

/// What the worker waits for.
#[derive(Debug, Clone, Copy, PartialEq, Eq, Structural)]
pub enum Phase {
    Receiving,
    Collecting,
    BatchClock,
    DeadlineClock,
    WallClock(u64, After),
    Rotating(u64, i128, After),
    Writing,
    FlushClock,
    Flushing(Reason),
    Rearming,
    Replying(bool),
    Stopped,
}

/// The worker.
pub struct Worker<R> {
    pub flush_policy: FlushPolicy,
    pub batch_limit: usize,
    pub rotation: Option<RotationSchedule>,
    pub next_flush: Option<u128>,
    pub request: Option<Request<R>>,
    pub disconnected: bool,
    pub failure: Option<String>,
    pub batch: Vec<QueuedLine>,
    pub phase: Phase,
}

/// A worker with its batch and its text as sequences.
pub struct State<R> {
    pub flush_policy: FlushPolicy,
    pub batch_limit: usize,
    pub rotation: Option<RotationSchedule>,
    pub next_flush: Option<u128>,
    pub request: Option<Request<R>>,
    pub disconnected: bool,
    pub failure: Option<Seq<char>>,
    pub batch: Seq<QueuedLine>,
    pub phase: Phase,
}

impl<R> View for Worker<R> {
    type V = State<R>;

    open spec fn view(&self) -> State<R> {
        State {
            flush_policy: self.flush_policy,
            batch_limit: self.batch_limit,
            rotation: self.rotation,
            next_flush: self.next_flush,
            request: self.request,
            disconnected: self.disconnected,
            failure: match self.failure {
                Some(text) => Some(text@),
                None => None,
            },
            batch: self.batch@,
            phase: self.phase,
        }
    }
}

/// The earlier of two deadlines, where there are any.
pub open spec fn earlier(first: Option<u128>, second: Option<u128>) -> Option<u128> {
    match (first, second) {
        (Some(a), Some(b)) => Some(
            if a <= b {
                a
            } else {
                b
            },
        ),
        (Some(a), None) => Some(a),
        (None, other) => other,
    }
}

/// The earlier of two deadlines, where there are any.
pub fn earliest_deadline(first: Option<u128>, second: Option<u128>) -> (r: Option<u128>)
    ensures
        r == earlier(first, second),
{
    match (first, second) {
        (Some(a), Some(b)) => if a <= b {
            Some(a)
        } else {
            Some(b)
        },
        (Some(a), None) => Some(a),
        (None, other) => other,
    }
}

/// The time that is left until a deadline. None is left once it has passed; more
/// than a duration can hold is cut to the longest one.
pub fn time_left(deadline: u128, now: u64) -> (r: Duration)
    ensures
        r.wf(),
        deadline <= now ==> r.total_nanos() == 0,
        deadline > now && (deadline - now) / (NANOS_PER_SECOND as int) <= u64::MAX
            ==> r.total_nanos() == deadline - now,
        deadline > now && (deadline - now) / (NANOS_PER_SECOND as int) > u64::MAX ==> r == (
        Duration { secs: u64::MAX, nanos: 999_999_999 }),
{
    let left: u128 = if deadline > now as u128 {
        deadline - now as u128
    } else {
        0
    };
    let secs: u128 = left / 1_000_000_000;
    if secs <= u64::MAX as u128 {
        Duration::new(secs as u64, (left % 1_000_000_000) as u32)
    } else {
        Duration::new(u64::MAX, 999_999_999)
    }
}

/// Whether a batch holds a line for the error file.
pub open spec fn holds_error(batch: Seq<QueuedLine>) -> bool {
    exists|i: int| 0 <= i < batch.len() && (#[trigger] batch[i]).destination is Error
}

fn contains_error(batch: &Vec<QueuedLine>) -> (r: bool)
    ensures
        r == holds_error(batch@),
{
    let mut i: usize = 0;
    while i < batch.len()
        invariant
            i <= batch@.len(),
            forall|j: int| 0 <= j < i ==> !((#[trigger] batch@[j]).destination is Error),
        decreases batch@.len() - i,
    {
        if let Destination::Error = batch[i].destination {
            return true;
        }
        i = i + 1;
    }
    false
}

/// The state after an event, and what is to be done next.
pub type Step<R> = (State<R>, Deed<R>);

impl<R> State<R> {
    /// The point in time when the files are next flushed, after a flush at `now`.
    pub open spec fn flush_deadline(self, now: u64) -> Option<u128> {
        match self.flush_policy.span() {
            Some(span) => Some((now + span.total_nanos()) as u128),
            None => None,
        }
    }

    /// What is left to do comes first: a request, then the end of a queue that
    /// nothing can enter any more. Else the worker waits for the next command.
    pub open spec fn resume(self) -> Step<R> {
        if self.request is Some {
            (State { phase: Phase::Flushing(Reason::Request), ..self }, Deed::Flush)
        } else if self.disconnected {
            (State { phase: Phase::Flushing(Reason::Disconnected), ..self }, Deed::Flush)
        } else {
            let rotation_deadline = match self.rotation {
                Some(schedule) => Some(schedule.next_deadline),
                None => None,
            };
            (
                State { phase: Phase::Receiving, ..self },
                Deed::Receive(earlier(self.next_flush, rotation_deadline)),
            )
        }
    }

    /// A line joins the batch, which grows as long as it may.
    pub open spec fn collect(self, line: QueuedLine) -> Step<R> {
        let grown = State { batch: self.batch.push(line), ..self };
        if grown.batch.len() < self.batch_limit {
            (State { phase: Phase::Collecting, ..grown }, Deed::TryReceive)
        } else {
            grown.close()
        }
    }

    /// The batch is complete. It is written after a look at the rotation.
    pub open spec fn close(self) -> Step<R> {
        if self.rotation is Some {
            (State { phase: Phase::BatchClock, ..self }, Deed::ReadClock)
        } else {
            (State { phase: Phase::Writing, ..self }, Deed::Write)
        }
    }

    /// A look at the rotation.
    pub open spec fn look(self, now: u64, after: After) -> Step<R> {
        match self.rotation {
            Some(schedule) if now >= schedule.next_deadline => (
                State { phase: Phase::WallClock(now, after), ..self },
                Deed::ReadWallClock,
            ),
            _ => self.proceed(now, after),
        }
    }

    /// What follows a look at the rotation.
    pub open spec fn proceed(self, now: u64, after: After) -> Step<R> {
        match (after, self.next_flush) {
            (After::WriteBatch, _) => (State { phase: Phase::Writing, ..self }, Deed::Write),
            (After::FlushIfDue, Some(deadline)) if now >= deadline => (
                State { phase: Phase::Flushing(Reason::Deadline(now)), ..self },
                Deed::Flush,
            ),
            (After::FlushIfDue, _) => self.resume(),
        }
    }

    /// The time of day is known: where a later period has begun, the files of the
    /// current one are archived first.
    pub open spec fn rotate(self, now: u64, unix_nanos: i128, after: After) -> Step<R> {
        let schedule = self.rotation->0;
        if !schedule.rotates_at(unix_nanos as int) {
            self.rotated(now, unix_nanos, after)
        } else {
            match suffix_error(schedule.policy, schedule.current_period.0 as int) {
                Some(error) => self.stop(Err(error.text())),
                None => (
                    State { phase: Phase::Rotating(now, unix_nanos, after), ..self },
                    Deed::Rotate(suffix_of(schedule.policy, schedule.current_period.0 as int)),
                ),
            }
        }
    }

    /// The files are those of the period.
    pub open spec fn rotated(self, now: u64, unix_nanos: i128, after: After) -> Step<R> {
        let schedule = self.rotation->0.renewed(unix_nanos as int, now as int);
        State { rotation: Some(schedule), ..self }.proceed(now, after)
    }

    /// The batch is written. It may ask for a flush; else the deadline may.
    pub open spec fn written(self) -> Step<R> {
        let emptied = State { batch: Seq::empty(), ..self };
        if self.flush_policy is EveryLine || (holds_error(self.batch) && !(
        self.flush_policy is Interval)) {
            (State { phase: Phase::Flushing(Reason::Batch), ..emptied }, Deed::Flush)
        } else if self.next_flush is Some {
            (State { phase: Phase::FlushClock, ..emptied }, Deed::ReadClock)
        } else {
            emptied.resume()
        }
    }

    /// The deadline of the next flush is set anew.
    pub open spec fn rearm(self) -> Step<R> {
        if self.flush_policy.span() is Some {
            (State { phase: Phase::Rearming, ..self }, Deed::ReadClock)
        } else {
            self.resume()
        }
    }

    /// The deadline of the next flush, after one at `now`.
    pub open spec fn armed(self, now: u64) -> Step<R> {
        State { next_flush: self.flush_deadline(now), ..self }.resume()
    }

    /// The files are flushed.
    pub open spec fn flushed(self, reason: Reason) -> Step<R> {
        match reason {
            Reason::Batch => self.rearm(),
            Reason::Deadline(now) => self.armed(now),
            Reason::Request => self.answer(None),
            Reason::Disconnected => self.stop(Ok(())),
        }
    }

    /// The answer to the request.
    pub open spec fn answer(self, failure: Option<Seq<char>>) -> Step<R> {
        (
            State {
                request: None,
                failure,
                phase: Phase::Replying(self.request->0 is Shutdown),
                ..self
            },
            Deed::Reply(
                self.request->0.handle(),
                match failure {
                    Some(text) => Err(text),
                    None => Ok(()),
                },
            ),
        )
    }

    /// The request is answered. A failure or a shutdown ends the work.
    pub open spec fn answered(self, shutdown: bool) -> Step<R> {
        match self.failure {
            Some(text) => self.stop(Err(text)),
            None => if shutdown {
                self.stop(Ok(()))
            } else {
                self.rearm()
            },
        }
    }

    /// The end.
    pub open spec fn stop(self, outcome: Result<(), Seq<char>>) -> Step<R> {
        (State { phase: Phase::Stopped, ..self }, Deed::Stop(outcome))
    }

    /// A request waits until the batch is written.
    pub open spec fn put_off(self, request: Request<R>) -> State<R> {
        State { request: Some(request), ..self }
    }

    /// The whole behaviour of the worker.
    pub open spec fn next(self, event: Event<R>) -> Step<R> {
        match (self.phase, event) {
            (Phase::Receiving, Event::Command(Command::Line(line))) => self.collect(line),
            (Phase::Receiving, Event::Command(Command::Flush(reply))) => self.put_off(
                Request::Flush(reply),
            ).resume(),
            (Phase::Receiving, Event::Command(Command::Shutdown(reply))) => self.put_off(
                Request::Shutdown(reply),
            ).resume(),
            (Phase::Receiving, Event::Deadline) => (
                State { phase: Phase::DeadlineClock, ..self },
                Deed::ReadClock,
            ),
            (Phase::Receiving, Event::Disconnected) => State {
                disconnected: true,
                ..self
            }.resume(),
            (Phase::Collecting, Event::Command(Command::Line(line))) => self.collect(line),
            (Phase::Collecting, Event::Command(Command::Flush(reply))) => self.put_off(
                Request::Flush(reply),
            ).close(),
            (Phase::Collecting, Event::Command(Command::Shutdown(reply))) => self.put_off(
                Request::Shutdown(reply),
            ).close(),
            (Phase::Collecting, Event::Empty) => self.close(),
            (Phase::Collecting, Event::Disconnected) => State {
                disconnected: true,
                ..self
            }.close(),
            (Phase::BatchClock, Event::Clock(now)) => self.look(now, After::WriteBatch),
            (Phase::DeadlineClock, Event::Clock(now)) => self.look(now, After::FlushIfDue),
            (Phase::WallClock(now, after), Event::WallClock(unix_nanos)) => self.rotate(
                now,
                unix_nanos,
                after,
            ),
            (Phase::Rotating(now, unix_nanos, after), Event::Done) => self.rotated(
                now,
                unix_nanos,
                after,
            ),
            (Phase::Writing, Event::Done) => self.written(),
            (Phase::FlushClock, Event::Clock(now)) => if now >= self.next_flush->0 {
                (State { phase: Phase::Flushing(Reason::Batch), ..self }, Deed::Flush)
            } else {
                self.resume()
            },
            (Phase::Flushing(reason), Event::Done) => self.flushed(reason),
            (Phase::Flushing(Reason::Request), Event::Failed(text)) => self.answer(Some(text@)),
            (Phase::Rearming, Event::Clock(now)) => self.armed(now),
            (Phase::Replying(shutdown), Event::Done) => self.answered(shutdown),
            (_, Event::Failed(text)) => self.stop(Err(text@)),
            _ => self.stop(Ok(())),
        }
    }

    /// Whether an event can come of the action that the worker waits for.
    pub open spec fn awaits(self, event: Event<R>) -> bool {
        match self.phase {
            Phase::Receiving => event is Command || event is Deadline || event is Disconnected,
            Phase::Collecting => event is Command || event is Empty || event is Disconnected,
            Phase::BatchClock => event is Clock,
            Phase::DeadlineClock => event is Clock,
            Phase::WallClock(_, _) => event matches Event::WallClock(unix_nanos)
                && has_local_time(unix_nanos) && (self.rotation->0.rotates_at(unix_nanos as int)
                ==> !starts_past_calendar(
                self.rotation->0.policy,
                self.rotation->0.current_period.0 as int,
            )),
            Phase::Rotating(_, _, _) => event is Done || event is Failed,
            Phase::Writing => event is Done || event is Failed,
            Phase::FlushClock => event is Clock,
            Phase::Flushing(_) => event is Done || event is Failed,
            Phase::Rearming => event is Clock,
            Phase::Replying(_) => event is Done,
            Phase::Stopped => false,
        }
    }

    /// An event that the worker waits for, with a line, if any, in good order.
    pub open spec fn takes(self, event: Event<R>) -> bool {
        &&& self.awaits(event)
        &&& event matches Event::Command(Command::Line(line)) ==> line.bytes.wf()
    }

    /// The batch keeps to its limit. Lines are held only while a batch is
    /// collected and written, and a request waits only then or while the files are
    /// flushed for it.
    pub open spec fn wf(self) -> bool {
        &&& self.rotation matches Some(schedule) ==> schedule.wf()
        &&& self.next_flush is Some <==> self.flush_policy.span() is Some
        &&& self.batch.len() <= 1 || self.batch.len() <= self.batch_limit
        &&& forall|i: int| 0 <= i < self.batch.len() ==> (#[trigger] self.batch[i]).bytes.wf()
        &&& self.failure is Some ==> self.phase is Replying || self.phase is Stopped
        &&& match self.phase {
            Phase::Receiving => self.batch.len() == 0 && self.request is None
                && !self.disconnected,
            Phase::Collecting => 0 < self.batch.len() < self.batch_limit && self.request is None
                && !self.disconnected,
            Phase::BatchClock => self.batch.len() > 0 && self.rotation is Some,
            Phase::DeadlineClock => self.batch.len() == 0 && self.request is None,
            Phase::WallClock(_, after) => self.rotation is Some && self.before(after),
            Phase::Rotating(_, unix_nanos, after) => self.rotation is Some && has_local_time(
                unix_nanos,
            ) && self.before(after),
            Phase::Writing => self.batch.len() > 0,
            Phase::FlushClock => self.batch.len() == 0 && self.next_flush is Some,
            Phase::Flushing(reason) => self.batch.len() == 0 && (reason is Request
                ==> self.request is Some) && (reason is Disconnected ==> self.request is None
                && self.disconnected),
            Phase::Rearming => self.batch.len() == 0,
            Phase::Replying(_) => self.batch.len() == 0 && self.request is None,
            Phase::Stopped => true,
        }
    }

    /// A batch is there exactly where it is to be written.
    pub open spec fn before(self, after: After) -> bool {
        match after {
            After::WriteBatch => self.batch.len() > 0,
            After::FlushIfDue => self.batch.len() == 0 && self.request is None,
        }
    }
}

impl<R> Worker<R> {
    /// A worker that has done nothing, and what it does first.
    pub fn new(
        flush_policy: FlushPolicy,
        rotation: Option<RotationSchedule>,
        batch_limit: usize,
        now: u64,
    ) -> (r: (Self, Action<R>))
        requires
            rotation matches Some(schedule) ==> schedule.wf(),
        ensures
            r.0@.wf(),
            r.0@.batch == Seq::<QueuedLine>::empty(),
            (r.0@, r.1@) == (State::<R> {
                flush_policy,
                batch_limit,
                rotation,
                next_flush: r.0@.flush_deadline(now),
                request: None,
                disconnected: false,
                failure: None,
                batch: Seq::empty(),
                phase: Phase::Receiving,
            }).resume(),
    {
        let mut worker: Worker<R> = Worker {
            flush_policy,
            batch_limit,
            rotation,
            next_flush: None,
            request: None,
            disconnected: false,
            failure: None,
            batch: Vec::new(),
            phase: Phase::Receiving,
        };
        assert(worker.batch@ =~= Seq::empty());
        let action = worker.armed(now);
        (worker, action)
    }

    /// The lines that are to be written.
    pub fn batch(&self) -> (r: &[QueuedLine])
        requires
            self@.wf(),
        ensures
            r@ == self@.batch,
            forall|i: int| 0 <= i < r@.len() ==> (#[trigger] r@[i]).bytes.wf(),
    {
        self.batch.as_slice()
    }

    /// Whether an event can come of the action that the worker waits for.
    pub fn accepts(&self, event: &Event<R>) -> (r: bool)
        requires
            self@.wf(),
        ensures
            r == self@.awaits(*event),
    {
        match (&self.phase, event) {
            (Phase::Receiving, Event::Command(_)) => true,
            (Phase::Receiving, Event::Deadline) => true,
            (Phase::Receiving, Event::Disconnected) => true,
            (Phase::Collecting, Event::Command(_)) => true,
            (Phase::Collecting, Event::Empty) => true,
            (Phase::Collecting, Event::Disconnected) => true,
            (Phase::BatchClock, Event::Clock(_)) => true,
            (Phase::DeadlineClock, Event::Clock(_)) => true,
            (Phase::WallClock(_, _), Event::WallClock(unix_nanos)) => match &self.rotation {
                Some(schedule) => is_local_time(*unix_nanos) && (!schedule.has_passed(*unix_nanos)
                    || !is_past_calendar(schedule.policy, schedule.current_period)),
                None => false,
            },
            (Phase::Rotating(_, _, _), Event::Done) => true,
            (Phase::Rotating(_, _, _), Event::Failed(_)) => true,
            (Phase::Writing, Event::Done) => true,
            (Phase::Writing, Event::Failed(_)) => true,
            (Phase::FlushClock, Event::Clock(_)) => true,
            (Phase::Flushing(_), Event::Done) => true,
            (Phase::Flushing(_), Event::Failed(_)) => true,
            (Phase::Rearming, Event::Clock(_)) => true,
            (Phase::Replying(_), Event::Done) => true,
            _ => false,
        }
    }

    fn resume(&mut self) -> (r: Action<R>)
        ensures
            (final(self)@, r@) == old(self)@.resume(),
    {
        if self.request.is_some() {
            self.phase = Phase::Flushing(Reason::Request);
            Action::Flush
        } else if self.disconnected {
            self.phase = Phase::Flushing(Reason::Disconnected);
            Action::Flush
        } else {
            let rotation_deadline = match &self.rotation {
                Some(schedule) => Some(schedule.next_deadline),
                None => None,
            };
            self.phase = Phase::Receiving;
            Action::Receive(earliest_deadline(self.next_flush, rotation_deadline))
        }
    }

    fn collect(&mut self, line: QueuedLine) -> (r: Action<R>)
        ensures
            (final(self)@, r@) == old(self)@.collect(line),
    {
        self.batch.push(line);
        if self.batch.len() < self.batch_limit {
            self.phase = Phase::Collecting;
            Action::TryReceive
        } else {
            self.close()
        }
    }

    fn close(&mut self) -> (r: Action<R>)
        ensures
            (final(self)@, r@) == old(self)@.close(),
    {
        if self.rotation.is_some() {
            self.phase = Phase::BatchClock;
            Action::ReadClock
        } else {
            self.phase = Phase::Writing;
            Action::Write
        }
    }

    fn look(&mut self, now: u64, after: After) -> (r: Action<R>)
        ensures
            (final(self)@, r@) == old(self)@.look(now, after),
    {
        let due = match &self.rotation {
            Some(schedule) => schedule.is_due(now),
            None => false,
        };
        if due {
            self.phase = Phase::WallClock(now, after);
            Action::ReadWallClock
        } else {
            self.proceed(now, after)
        }
    }

    fn proceed(&mut self, now: u64, after: After) -> (r: Action<R>)
        ensures
            (final(self)@, r@) == old(self)@.proceed(now, after),
    {
        match after {
            After::WriteBatch => {
                self.phase = Phase::Writing;
                Action::Write
            },
            After::FlushIfDue => if self.is_flush_due(now) {
                self.phase = Phase::Flushing(Reason::Deadline(now));
                Action::Flush
            } else {
                self.resume()
            },
        }
    }

    fn is_flush_due(&self, now: u64) -> (r: bool)
        ensures
            r == (self.next_flush is Some && now >= self.next_flush->0),
    {
        match self.next_flush {
            Some(deadline) => now as u128 >= deadline,
            None => false,
        }
    }

    fn rotate(&mut self, now: u64, unix_nanos: i128, after: After) -> (r: Action<R>)
        requires
            old(self)@.wf(),
            old(self).rotation is Some,
            old(self).phase is WallClock,
            old(self)@.awaits(Event::WallClock(unix_nanos)),
        ensures
            (final(self)@, r@) == old(self)@.rotate(now, unix_nanos, after),
    {
        let planned = match &self.rotation {
            Some(schedule) => schedule.plan(unix_nanos),
            None => Ok(None),
        };
        match planned {
            Err(error) => self.stop(Err(error.message())),
            Ok(Some(suffix)) => {
                proof {
                    let schedule = self.rotation->0;
                    let period = schedule.current_period.0 as int;
                    periods_have_one_suffix(
                        schedule.policy,
                        period,
                        suffix@,
                        suffix_of(schedule.policy, period),
                    );
                }
                self.phase = Phase::Rotating(now, unix_nanos, after);
                Action::Rotate(suffix)
            },
            Ok(None) => self.rotated(now, unix_nanos, after),
        }
    }

    fn rotated(&mut self, now: u64, unix_nanos: i128, after: After) -> (r: Action<R>)
        requires
            old(self).rotation matches Some(schedule) && schedule.wf(),
            has_local_time(unix_nanos),
        ensures
            (final(self)@, r@) == old(self)@.rotated(now, unix_nanos, after),
    {
        if let Some(schedule) = self.rotation {
            let mut renewed = schedule;
            renewed.renew(unix_nanos, now);
            self.rotation = Some(renewed);
        }
        self.proceed(now, after)
    }

    fn written(&mut self) -> (r: Action<R>)
        ensures
            (final(self)@, r@) == old(self)@.written(),
    {
        let urgent = contains_error(&self.batch);
        self.batch.clear();
        assert(self.batch@ =~= Seq::empty());
        if self.flush_policy.flush_after_every_line() || (urgent
            && self.flush_policy.flush_after_error()) {
            self.phase = Phase::Flushing(Reason::Batch);
            Action::Flush
        } else if self.next_flush.is_some() {
            self.phase = Phase::FlushClock;
            Action::ReadClock
        } else {
            self.resume()
        }
    }

    fn rearm(&mut self) -> (r: Action<R>)
        ensures
            (final(self)@, r@) == old(self)@.rearm(),
    {
        if self.flush_policy.interval().is_some() {
            self.phase = Phase::Rearming;
            Action::ReadClock
        } else {
            self.resume()
        }
    }

    fn armed(&mut self, now: u64) -> (r: Action<R>)
        ensures
            (final(self)@, r@) == old(self)@.armed(now),
    {
        self.next_flush = match self.flush_policy.interval() {
            Some(interval) => Some(now as u128 + interval.as_nanos()),
            None => None,
        };
        self.resume()
    }

    fn flushed(&mut self, reason: Reason) -> (r: Action<R>)
        requires
            reason is Request ==> old(self).request is Some,
        ensures
            (final(self)@, r@) == old(self)@.flushed(reason),
    {
        match reason {
            Reason::Batch => self.rearm(),
            Reason::Deadline(now) => self.armed(now),
            Reason::Request => self.answer(None),
            Reason::Disconnected => self.stop(Ok(())),
        }
    }

    fn answer(&mut self, failure: Option<String>) -> (r: Action<R>)
        requires
            old(self).request is Some,
        ensures
            (final(self)@, r@) == old(self)@.answer(
                match failure {
                    Some(text) => Some(text@),
                    None => None,
                },
            ),
    {
        let outcome = match &failure {
            Some(text) => Err(text.as_str().to_owned()),
            None => Ok(()),
        };
        self.failure = failure;
        match self.request.take() {
            Some(Request::Flush(reply)) => {
                self.phase = Phase::Replying(false);
                Action::Reply(reply, outcome)
            },
            Some(Request::Shutdown(reply)) => {
                self.phase = Phase::Replying(true);
                Action::Reply(reply, outcome)
            },
            None => self.stop(outcome),
        }
    }

    fn answered(&mut self, shutdown: bool) -> (r: Action<R>)
        ensures
            (final(self)@, r@) == old(self)@.answered(shutdown),
    {
        let failed = match &self.failure {
            Some(text) => Some(text.as_str().to_owned()),
            None => None,
        };
        match failed {
            Some(text) => self.stop(Err(text)),
            None => if shutdown {
                self.stop(Ok(()))
            } else {
                self.rearm()
            },
        }
    }

    fn stop(&mut self, outcome: Result<(), String>) -> (r: Action<R>)
        ensures
            (final(self)@, r@) == old(self)@.stop(outcome_text(outcome)),
    {
        self.phase = Phase::Stopped;
        Action::Stop(outcome)
    }

    fn put_off(&mut self, request: Request<R>)
        ensures
            final(self)@ == old(self)@.put_off(request),
    {
        self.request = Some(request);
    }

    /// Takes in what came of the last action, and says what is to be done next.
    pub fn step(&mut self, event: Event<R>) -> (r: Action<R>)
        requires
            old(self)@.wf(),
            old(self)@.takes(event),
        ensures
            final(self)@.wf(),
            (final(self)@, r@) == old(self)@.next(event),
    {
        let ghost before = self@;
        let ghost happened = event;
        let action = match (self.phase, event) {
            (Phase::Receiving, Event::Command(Command::Line(line))) => self.collect(line),
            (Phase::Receiving, Event::Command(Command::Flush(reply))) => {
                self.put_off(Request::Flush(reply));
                self.resume()
            },
            (Phase::Receiving, Event::Command(Command::Shutdown(reply))) => {
                self.put_off(Request::Shutdown(reply));
                self.resume()
            },
            (Phase::Receiving, Event::Deadline) => {
                self.phase = Phase::DeadlineClock;
                Action::ReadClock
            },
            (Phase::Receiving, Event::Disconnected) => {
                self.disconnected = true;
                self.resume()
            },
            (Phase::Collecting, Event::Command(Command::Line(line))) => self.collect(line),
            (Phase::Collecting, Event::Command(Command::Flush(reply))) => {
                self.put_off(Request::Flush(reply));
                self.close()
            },
            (Phase::Collecting, Event::Command(Command::Shutdown(reply))) => {
                self.put_off(Request::Shutdown(reply));
                self.close()
            },
            (Phase::Collecting, Event::Empty) => self.close(),
            (Phase::Collecting, Event::Disconnected) => {
                self.disconnected = true;
                self.close()
            },
            (Phase::BatchClock, Event::Clock(now)) => self.look(now, After::WriteBatch),
            (Phase::DeadlineClock, Event::Clock(now)) => self.look(now, After::FlushIfDue),
            (Phase::WallClock(now, after), Event::WallClock(unix_nanos)) => self.rotate(
                now,
                unix_nanos,
                after,
            ),
            (Phase::Rotating(now, unix_nanos, after), Event::Done) => self.rotated(
                now,
                unix_nanos,
                after,
            ),
            (Phase::Writing, Event::Done) => self.written(),
            (Phase::FlushClock, Event::Clock(now)) => if self.is_flush_due(now) {
                self.phase = Phase::Flushing(Reason::Batch);
                Action::Flush
            } else {
                self.resume()
            },
            (Phase::Flushing(reason), Event::Done) => self.flushed(reason),
            (Phase::Flushing(Reason::Request), Event::Failed(text)) => self.answer(Some(text)),
            (Phase::Rearming, Event::Clock(now)) => self.armed(now),
            (Phase::Replying(shutdown), Event::Done) => self.answered(shutdown),
            (_, Event::Failed(text)) => self.stop(Err(text)),
            _ => self.stop(Ok(())),
        };
        proof {
            lemma_next_keeps_order(before, happened);
        }
        action
    }
}

/// A worker in good order stays so.
proof fn lemma_next_keeps_order<R>(state: State<R>, event: Event<R>)
    requires
        state.wf(),
        state.takes(event),
    ensures
        state.next(event).0.wf(),
        state.next(event).0.batch_limit == state.batch_limit,
        state.next(event).0.flush_policy == state.flush_policy,
{
}

/// The line that an event brings, if any.
pub open spec fn line_of<R>(event: Event<R>) -> Seq<QueuedLine> {
    match event {
        Event::Command(Command::Line(line)) => seq![line],
        _ => Seq::empty(),
    }
}

/// The handle of the request that an event brings, if any.
pub open spec fn request_of<R>(event: Event<R>) -> Seq<R> {
    match event {
        Event::Command(Command::Flush(reply)) => seq![reply],
        Event::Command(Command::Shutdown(reply)) => seq![reply],
        _ => Seq::empty(),
    }
}

/// The handle that a deed answers, if any.
pub open spec fn answer_of<R>(deed: Deed<R>) -> Seq<R> {
    match deed {
        Deed::Reply(reply, _) => seq![reply],
        _ => Seq::empty(),
    }
}

impl<R> State<R> {
    /// The lines that an event reports as written.
    pub open spec fn lines_written(self, event: Event<R>) -> Seq<QueuedLine> {
        if self.phase is Writing && event is Done {
            self.batch
        } else {
            Seq::empty()
        }
    }

    /// The handle of the request that waits, if any.
    pub open spec fn waiting(self) -> Seq<R> {
        match self.request {
            Some(request) => seq![request.handle()],
            None => Seq::empty(),
        }
    }

    /// The state after a series of events.
    pub open spec fn after(self, events: Seq<Event<R>>) -> State<R>
        decreases events.len(),
    {
        if events.len() == 0 {
            self
        } else {
            self.after(events.drop_last()).next(events.last()).0
        }
    }

    /// Whether each of a series of events can come of the action before it.
    pub open spec fn takes_all(self, events: Seq<Event<R>>) -> bool
        decreases events.len(),
    {
        events.len() > 0 ==> {
            &&& self.takes_all(events.drop_last())
            &&& self.after(events.drop_last()).takes(events.last())
        }
    }

    /// The lines that a series of events reports as written.
    pub open spec fn all_written(self, events: Seq<Event<R>>) -> Seq<QueuedLine>
        decreases events.len(),
    {
        if events.len() == 0 {
            Seq::empty()
        } else {
            self.all_written(events.drop_last()) + self.after(events.drop_last()).lines_written(
                events.last(),
            )
        }
    }

    /// The handles that are answered during a series of events.
    pub open spec fn all_answered(self, events: Seq<Event<R>>) -> Seq<R>
        decreases events.len(),
    {
        if events.len() == 0 {
            Seq::empty()
        } else {
            self.all_answered(events.drop_last()) + answer_of(
                self.after(events.drop_last()).next(events.last()).1,
            )
        }
    }
}

/// The lines that a series of events brings.
pub open spec fn lines_of<R>(events: Seq<Event<R>>) -> Seq<QueuedLine>
    decreases events.len(),
{
    if events.len() == 0 {
        Seq::empty()
    } else {
        lines_of(events.drop_last()) + line_of(events.last())
    }
}

/// The handles of the requests that a series of events brings.
pub open spec fn requests_of<R>(events: Seq<Event<R>>) -> Seq<R>
    decreases events.len(),
{
    if events.len() == 0 {
        Seq::empty()
    } else {
        requests_of(events.drop_last()) + request_of(events.last())
    }
}

/// Whatever happens, the worker stays in good order: its batch keeps to the
/// limit, and no line is held while it waits, flushes or answers.
pub proof fn worker_stays_in_order<R>(state: State<R>, events: Seq<Event<R>>)
    requires
        state.wf(),
        state.takes_all(events),
    ensures
        state.after(events).wf(),
        state.after(events).batch.len() <= 1 || state.after(events).batch.len()
            <= state.batch_limit,
        state.after(events).phase is Receiving || state.after(events).phase is Flushing
            || state.after(events).phase is Replying ==> state.after(events).batch.len() == 0,
        state.after(events).batch_limit == state.batch_limit,
        state.after(events).flush_policy == state.flush_policy,
    decreases events.len(),
{
    if events.len() > 0 {
        worker_stays_in_order(state, events.drop_last());
        lemma_next_keeps_order(state.after(events.drop_last()), events.last());
    }
}

proof fn lemma_lines_add_up<R>(before: State<R>, event: Event<R>)
    requires
        before.wf(),
        before.takes(event),
    ensures
        before.lines_written(event) + before.next(event).0.batch == before.batch + line_of(event),
{
    assert(before.lines_written(event) + before.next(event).0.batch =~= before.batch + line_of(
        event,
    ));
}

proof fn lemma_requests_add_up<R>(before: State<R>, event: Event<R>)
    requires
        before.wf(),
        before.takes(event),
    ensures
        answer_of(before.next(event).1) + before.next(event).0.waiting() == before.waiting()
            + request_of(event),
{
    assert(answer_of(before.next(event).1) + before.next(event).0.waiting() =~= before.waiting()
        + request_of(event));
}

/// Every line that comes out of the queue is written once, in the order of the
/// queue, or is still in the batch.
pub proof fn lines_are_written_once_and_in_order<R>(state: State<R>, events: Seq<Event<R>>)
    requires
        state.wf(),
        state.takes_all(events),
    ensures
        state.all_written(events) + state.after(events).batch == state.batch + lines_of(events),
    decreases events.len(),
{
    if events.len() == 0 {
        assert(state.all_written(events) + state.after(events).batch =~= state.batch + lines_of(
            events,
        ));
    } else {
        let earlier_events = events.drop_last();
        let event = events.last();
        lines_are_written_once_and_in_order(state, earlier_events);
        worker_stays_in_order(state, earlier_events);
        let before = state.after(earlier_events);
        let after = before.next(event).0;
        lemma_lines_add_up(before, event);
        assert(state.all_written(events) + after.batch =~= state.all_written(earlier_events) + (
        before.lines_written(event) + after.batch));
        assert(state.all_written(earlier_events) + (before.batch + line_of(event)) =~= (
        state.all_written(earlier_events) + before.batch) + line_of(event));
        assert(state.batch + lines_of(events) =~= (state.batch + lines_of(earlier_events))
            + line_of(event));
    }
}

/// Every request is answered once, in the order of the queue, or still waits.
pub proof fn requests_are_answered_once_and_in_order<R>(state: State<R>, events: Seq<Event<R>>)
    requires
        state.wf(),
        state.takes_all(events),
    ensures
        state.all_answered(events) + state.after(events).waiting() == state.waiting()
            + requests_of(events),
    decreases events.len(),
{
    if events.len() == 0 {
        assert(state.all_answered(events) + state.after(events).waiting() =~= state.waiting()
            + requests_of(events));
    } else {
        let earlier_events = events.drop_last();
        let event = events.last();
        requests_are_answered_once_and_in_order(state, earlier_events);
        worker_stays_in_order(state, earlier_events);
        let before = state.after(earlier_events);
        let (after, deed) = before.next(event);
        lemma_requests_add_up(before, event);
        assert(state.all_answered(events) + after.waiting() =~= state.all_answered(earlier_events)
            + (answer_of(deed) + after.waiting()));
        assert(state.all_answered(earlier_events) + (before.waiting() + request_of(event)) =~= (
        state.all_answered(earlier_events) + before.waiting()) + request_of(event));
        assert(state.waiting() + requests_of(events) =~= (state.waiting() + requests_of(
            earlier_events,
        )) + request_of(event));
    }
}

/// A flush is a barrier: when a request is answered with success, every line that
/// came out of the queue before is written, and the files have been flushed since.
pub proof fn success_is_answered_behind_a_flush<R>(
    state: State<R>,
    events: Seq<Event<R>>,
    event: Event<R>,
    reply: R,
)
    requires
        state.wf(),
        state.batch.len() == 0,
        state.takes_all(events.push(event)),
        state.after(events).next(event).1 == Deed::Reply(reply, Ok(())),
    ensures
        state.all_written(events) == lines_of(events),
        state.after(events).phase == Phase::Flushing(Reason::Request),
        event is Done,
{
    let all = events.push(event);
    assert(all.drop_last() =~= events);
    lines_are_written_once_and_in_order(state, events);
    worker_stays_in_order(state, events);
    assert(state.all_written(events) + state.after(events).batch =~= state.all_written(events));
    assert(state.batch + lines_of(events) =~= lines_of(events));
}

/// The worker asks for a flush before it waits for the outcome of one: nothing is
/// written between a flush and its outcome.
pub proof fn flushing_follows_a_flush<R>(state: State<R>, event: Event<R>)
    requires
        state.wf(),
        state.takes(event),
    ensures
        state.next(event).0.phase is Flushing <==> state.next(event).1 is Flush,
        state.next(event).0.phase is Writing <==> state.next(event).1 is Write,
{
}

/// A worker that stops of its own accord leaves no line unwritten and no request
/// unanswered.
pub proof fn clean_stop_leaves_nothing<R>(state: State<R>, events: Seq<Event<R>>, event: Event<R>)
    requires
        state.wf(),
        state.batch.len() == 0,
        state.takes_all(events.push(event)),
        state.after(events).next(event).1 == Deed::<R>::Stop(Ok(())),
    ensures
        state.all_written(events) == lines_of(events),
        state.after(events).request is None,
        state.after(events).phase is Flushing || state.after(events).phase is Replying,
{
    let all = events.push(event);
    assert(all.drop_last() =~= events);
    lines_are_written_once_and_in_order(state, events);
    worker_stays_in_order(state, events);
    assert(state.all_written(events) + state.after(events).batch =~= state.all_written(events));
    assert(state.batch + lines_of(events) =~= lines_of(events));
}

/// The first failure ends the work, and its text is what the worker stops with;
/// whoever waits for an answer is told before.
pub proof fn failures_end_the_work<R>(state: State<R>, text: String)
    requires
        state.wf(),
        state.takes(Event::Failed(text)),
    ensures
        match state.next(Event::Failed(text)) {
            (after, Deed::Stop(outcome)) => after.phase is Stopped && outcome
                == Err::<(), Seq<char>>(text@),
            (after, Deed::Reply(_, outcome)) => {
                &&& outcome == Err::<(), Seq<char>>(text@)
                &&& after.takes(Event::Done)
                &&& after.next(Event::Done).1 == Deed::<R>::Stop(Err(text@))
            },
            _ => false,
        },
{
}

/// No batch is written while a look at the rotation is due, nor before the files
/// of an earlier period are archived.
pub proof fn rotation_comes_before_the_batch<R>(state: State<R>, event: Event<R>)
    requires
        state.wf(),
        state.takes(event),
        state.rotation is Some,
        state.next(event).1 is Write,
    ensures
        match (state.phase, event) {
            (Phase::BatchClock, Event::Clock(now)) => now < state.rotation->0.next_deadline,
            (Phase::WallClock(_, _), Event::WallClock(unix_nanos)) => !state.rotation->0.rotates_at(
                unix_nanos as int,
            ),
            (Phase::Rotating(_, _, _), Event::Done) => true,
            _ => false,
        },
{
}

/// Where the policy asks for it, a batch with an error line is flushed as soon as
/// it is written; where it asks for a flush after every line, every batch is.
pub proof fn errors_are_flushed_at_once<R>(state: State<R>)
    requires
        state.wf(),
        state.phase is Writing,
        state.flush_policy is EveryLine || (state.flush_policy is IntervalAndError && holds_error(
            state.batch,
        )),
    ensures
        state.next(Event::Done).1 is Flush,
        state.next(Event::Done).0.batch.len() == 0,
{
}

/// What the batches of a series of events put into the file of a destination, one
/// after the other.
pub open spec fn file_bytes<R>(
    state: State<R>,
    events: Seq<Event<R>>,
    destination: Destination,
) -> Seq<u8>
    decreases events.len(),
{
    if events.len() == 0 {
        Seq::empty()
    } else {
        file_bytes(state, events.drop_last(), destination) + destination_bytes(
            state.after(events.drop_last()).lines_written(events.last()),
            destination,
        )
    }
}

/// Once no line is held, each file has received exactly the lines for it, in the
/// order of the queue.
pub proof fn files_hold_what_was_queued<R>(
    state: State<R>,
    events: Seq<Event<R>>,
    destination: Destination,
)
    requires
        state.wf(),
        state.batch.len() == 0,
        state.takes_all(events),
        state.after(events).batch.len() == 0,
    ensures
        file_bytes(state, events, destination) == destination_bytes(lines_of(events), destination),
{
    lines_are_written_once_and_in_order(state, events);
    assert(state.all_written(events) + state.after(events).batch =~= state.all_written(events));
    assert(state.batch + lines_of(events) =~= lines_of(events));
    lemma_file_bytes(state, events, destination);
}

proof fn lemma_file_bytes<R>(state: State<R>, events: Seq<Event<R>>, destination: Destination)
    ensures
        file_bytes(state, events, destination) == destination_bytes(
            state.all_written(events),
            destination,
        ),
    decreases events.len(),
{
    if events.len() > 0 {
        lemma_file_bytes(state, events.drop_last(), destination);
        batches_do_not_show(
            state.all_written(events.drop_last()),
            state.after(events.drop_last()).lines_written(events.last()),
            destination,
        );
    }
}

/// The command that an event brings, if any.
pub open spec fn command_of<R>(event: Event<R>) -> Seq<Command<R>> {
    match event {
        Event::Command(command) => seq![command],
        _ => Seq::empty(),
    }
}

/// The commands that a series of events brings.
pub open spec fn commands_of<R>(events: Seq<Event<R>>) -> Seq<Command<R>>
    decreases events.len(),
{
    if events.len() == 0 {
        Seq::empty()
    } else {
        commands_of(events.drop_last()) + command_of(events.last())
    }
}

/// The lines among commands.
pub open spec fn command_lines<R>(commands: Seq<Command<R>>) -> Seq<QueuedLine>
    decreases commands.len(),
{
    if commands.len() == 0 {
        Seq::empty()
    } else {
        match commands.last() {
            Command::Line(line) => command_lines(commands.drop_last()).push(line),
            _ => command_lines(commands.drop_last()),
        }
    }
}

/// The part of a queue that is served: up to the first shutdown, which belongs to it.
pub open spec fn served<R>(queue: Seq<Command<R>>) -> Seq<Command<R>>
    decreases queue.len(),
{
    if queue.len() == 0 {
        queue
    } else if queue[0] is Shutdown {
        queue.take(1)
    } else {
        queue.take(1) + served(queue.skip(1))
    }
}

/// Whether a series of events takes its commands from the front of a queue, and the
/// queue is told to be disconnected only where nothing is left in it.
pub open spec fn comes_from<R>(events: Seq<Event<R>>, queue: Seq<Command<R>>) -> bool {
    &&& commands_of(events).is_prefix_of(queue)
    &&& forall|i: int|
        0 <= i < events.len() && (#[trigger] events[i]) is Disconnected ==> commands_of(
            events.take(i),
        ) == queue
}

impl<R> State<R> {
    /// Whether a shutdown waits to be answered, or has just been.
    pub open spec fn shuts_down(self) -> bool {
        self.request matches Some(Request::Shutdown(_)) || self.phase == Phase::Replying(true)
    }
}

proof fn lemma_shutdown_step<R>(state: State<R>, event: Event<R>)
    requires
        state.wf(),
        state.takes(event),
    ensures
        state.shuts_down() || state.disconnected ==> !(event is Command),
        state.shuts_down() ==> state.next(event).0.shuts_down() || state.next(event).0.phase is Stopped,
        event matches Event::Command(Command::Shutdown(_)) ==> state.next(event).0.shuts_down(),
        state.next(event).0.shuts_down() ==> state.shuts_down() || event matches Event::Command(
            Command::Shutdown(_),
        ),
        state.next(event).0.disconnected == (state.disconnected || event is Disconnected),
{
}

proof fn lemma_clean_stop<R>(state: State<R>, event: Event<R>)
    requires
        state.wf(),
        state.takes(event),
        state.next(event).1 == Deed::<R>::Stop(Ok(())),
    ensures
        state.shuts_down() || state.disconnected,
        event is Done,
        state.batch.len() == 0,
{
}

proof fn lemma_run<R>(state: State<R>, events: Seq<Event<R>>)
    requires
        state.wf(),
        state.phase is Receiving,
        state.takes_all(events),
    ensures
        ({
            let commands = commands_of(events);
            let after = state.after(events);
            &&& forall|i: int|
                0 <= i < commands.len() - 1 ==> !((#[trigger] commands[i]) is Shutdown)
            &&& commands.len() > 0 && commands.last() is Shutdown ==> after.shuts_down()
                || after.phase is Stopped
            &&& after.shuts_down() ==> commands.len() > 0 && commands.last() is Shutdown
            &&& after.disconnected ==> exists|i: int|
                0 <= i < events.len() && (#[trigger] events[i]) is Disconnected && commands_of(
                    events.take(i),
                ) == commands
        }),
    decreases events.len(),
{
    if events.len() > 0 {
        let earlier_events = events.drop_last();
        let event = events.last();
        lemma_run(state, earlier_events);
        worker_stays_in_order(state, earlier_events);
        let before = state.after(earlier_events);
        let after = state.after(events);
        lemma_shutdown_step(before, event);
        let earlier_commands = commands_of(earlier_events);
        let commands = commands_of(events);
        if event is Command {
            assert(commands.drop_last() =~= earlier_commands);
            assert forall|i: int| 0 <= i < commands.len() - 1 implies !((
            #[trigger] commands[i]) is Shutdown) by {
                assert(commands[i] == earlier_commands[i]);
            }
        } else {
            assert(commands =~= earlier_commands);
        }
        if after.disconnected {
            if before.disconnected {
                let i = choose|i: int|
                    0 <= i < earlier_events.len() && (#[trigger] earlier_events[i]) is Disconnected
                        && commands_of(earlier_events.take(i)) == earlier_commands;
                assert(events.take(i) =~= earlier_events.take(i));
                assert(events[i] is Disconnected);
            } else {
                let i = events.len() - 1;
                assert(events.take(i) =~= earlier_events);
                assert(events[i] is Disconnected);
            }
        }
    }
}

proof fn lemma_served<R>(queue: Seq<Command<R>>, commands: Seq<Command<R>>)
    requires
        commands.is_prefix_of(queue),
        forall|i: int| 0 <= i < commands.len() - 1 ==> !((#[trigger] commands[i]) is Shutdown),
        commands == queue || (commands.len() > 0 && commands.last() is Shutdown),
    ensures
        commands == served(queue),
    decreases queue.len(),
{
    assert(commands =~= queue.take(commands.len() as int));
    if queue.len() > 0 {
        assert(commands[0] == queue[0]);
        if queue[0] is Shutdown {
            assert(commands.len() == 1);
        } else {
            let rest = commands.skip(1);
            assert(rest =~= queue.skip(1).subrange(0, rest.len() as int));
            assert forall|i: int| 0 <= i < rest.len() - 1 implies !((
            #[trigger] rest[i]) is Shutdown) by {
                assert(rest[i] == commands[i + 1]);
            }
            lemma_served(queue.skip(1), rest);
            assert(commands =~= queue.take(1) + rest);
        }
    }
}

proof fn lemma_lines_of_commands<R>(events: Seq<Event<R>>)
    ensures
        lines_of(events) == command_lines(commands_of(events)),
    decreases events.len(),
{
    if events.len() > 0 {
        let earlier_events = events.drop_last();
        lemma_lines_of_commands(earlier_events);
        let commands = commands_of(events);
        if events.last() is Command {
            assert(commands.drop_last() =~= commands_of(earlier_events));
        } else {
            assert(commands =~= commands_of(earlier_events));
        }
        assert(lines_of(events) =~= command_lines(commands));
    }
}

/// Nothing is taken out of the queue behind a shutdown.
pub proof fn nothing_is_taken_behind_a_shutdown<R>(state: State<R>, events: Seq<Event<R>>, i: int)
    requires
        state.wf(),
        state.phase is Receiving,
        state.takes_all(events),
        0 <= i < commands_of(events).len(),
        commands_of(events)[i] is Shutdown,
    ensures
        i == commands_of(events).len() - 1,
{
    lemma_run(state, events);
}

/// A run that ends cleanly serves its queue up to the first shutdown, or all of it
/// where there is none, and puts exactly the lines among that into the files.
pub proof fn clean_runs_serve_the_queue<R>(
    state: State<R>,
    events: Seq<Event<R>>,
    event: Event<R>,
    queue: Seq<Command<R>>,
    destination: Destination,
)
    requires
        state.wf(),
        state.phase is Receiving,
        state.takes_all(events.push(event)),
        state.after(events).next(event).1 == Deed::<R>::Stop(Ok(())),
        comes_from(events, queue),
    ensures
        commands_of(events) == served(queue),
        commands_of(events.push(event)) == served(queue),
        file_bytes(state, events.push(event), destination) == destination_bytes(
            command_lines(served(queue)),
            destination,
        ),
{
    let all = events.push(event);
    assert(all.drop_last() =~= events);
    worker_stays_in_order(state, events);
    lemma_run(state, events);
    lemma_clean_stop(state.after(events), event);
    let commands = commands_of(events);
    if !state.after(events).shuts_down() {
        let i = choose|i: int|
            0 <= i < events.len() && (#[trigger] events[i]) is Disconnected && commands_of(
                events.take(i),
            ) == commands;
        assert(commands == queue);
    }
    lemma_served(queue, commands);
    assert(commands_of(all) =~= commands);
    lemma_lines_of_commands(all);
    assert(state.after(all).batch.len() == 0);
    files_hold_what_was_queued(state, all, destination);
}

/// Two runs over one queue that end cleanly put the same bytes into each file,
/// whatever their batches, their clocks and their policies.
pub proof fn files_do_not_depend_on_the_run<R>(
    first: State<R>,
    first_events: Seq<Event<R>>,
    first_last: Event<R>,
    second: State<R>,
    second_events: Seq<Event<R>>,
    second_last: Event<R>,
    queue: Seq<Command<R>>,
    destination: Destination,
)
    requires
        first.wf(),
        first.phase is Receiving,
        first.takes_all(first_events.push(first_last)),
        first.after(first_events).next(first_last).1 == Deed::<R>::Stop(Ok(())),
        comes_from(first_events, queue),
        second.wf(),
        second.phase is Receiving,
        second.takes_all(second_events.push(second_last)),
        second.after(second_events).next(second_last).1 == Deed::<R>::Stop(Ok(())),
        comes_from(second_events, queue),
    ensures
        file_bytes(first, first_events.push(first_last), destination) == file_bytes(
            second,
            second_events.push(second_last),
            destination,
        ),
{
    clean_runs_serve_the_queue(first, first_events, first_last, queue, destination);
    clean_runs_serve_the_queue(second, second_events, second_last, queue, destination);
}

/// Whether a deadline to wait for is the earliest of two: there is one where one of
/// the two is there, it is one of them, and neither comes before it.
pub open spec fn is_earliest(deadline: Option<u128>, first: Option<u128>, second: Option<u128>) -> bool {
    &&& deadline is None <==> first is None && second is None
    &&& deadline is Some ==> deadline == first || deadline == second
    &&& deadline is Some && first is Some ==> deadline->0 <= first->0
    &&& deadline is Some && second is Some ==> deadline->0 <= second->0
}

/// Whether a worker that had `left` to do goes on with it: it flushes the files for
/// a request, else for a queue that is closed, and else waits for a command, no
/// longer than to the next flush or the next look at the rotation.
pub open spec fn goes_on<R>(left: State<R>, step: Step<R>) -> bool {
    &&& step.0 == (State { phase: step.0.phase, ..left })
    &&& left.request is Some ==> step.1 is Flush && step.0.phase == Phase::Flushing(Reason::Request)
    &&& left.request is None && left.disconnected ==> step.1 is Flush && step.0.phase
        == Phase::Flushing(Reason::Disconnected)
    &&& left.request is None && !left.disconnected ==> {
        &&& step.0.phase is Receiving
        &&& step.1 matches Deed::Receive(deadline) && is_earliest(
            deadline,
            left.next_flush,
            if left.rotation is Some {
                Some(left.rotation->0.next_deadline)
            } else {
                None
            },
        )
    }
}

/// Whether a worker turns to writing the batch that it holds: by the clock first,
/// where files are archived at all.
pub open spec fn turns_to_writing<R>(held: State<R>, step: Step<R>) -> bool {
    &&& step.0 == (State { phase: step.0.phase, ..held })
    &&& held.rotation is Some <==> step.1 is ReadClock
    &&& held.rotation is None <==> step.1 is Write
    &&& step.1 is ReadClock ==> step.0.phase is BatchClock
    &&& step.1 is Write ==> step.0.phase is Writing
}

/// A line joins the end of the batch. While there is room for another, the worker
/// asks for it without waiting; a full batch is written.
pub proof fn lines_join_the_batch<R>(state: State<R>, line: QueuedLine)
    requires
        state.wf(),
        state.takes(Event::Command(Command::Line(line))),
    ensures
        ({
            let step = state.next(Event::Command(Command::Line(line)));
            let held = State { batch: state.batch.push(line), ..state };
            &&& step.0.batch == held.batch
            &&& held.batch.len() < state.batch_limit ==> step.1 is TryReceive && step.0 == (State {
                phase: Phase::Collecting,
                ..held
            })
            &&& held.batch.len() >= state.batch_limit ==> turns_to_writing(held, step)
        }),
{
}

/// A batch that is being collected is written as soon as the queue has no further
/// line for it, and a request waits until then.
pub proof fn batches_are_written_without_waiting<R>(state: State<R>, event: Event<R>)
    requires
        state.wf(),
        state.takes(event),
        state.phase is Collecting,
        !(event matches Event::Command(Command::Line(_))),
    ensures
        turns_to_writing(
            State {
                request: match event {
                    Event::Command(Command::Flush(reply)) => Some(Request::Flush(reply)),
                    Event::Command(Command::Shutdown(reply)) => Some(Request::Shutdown(reply)),
                    _ => None,
                },
                disconnected: event is Disconnected,
                ..state
            },
            state.next(event),
        ),
{
}

/// A worker that holds no line serves a request, the end of the queue, and a deadline
/// at once.
pub proof fn idle_workers_react_at_once<R>(state: State<R>, event: Event<R>)
    requires
        state.wf(),
        state.takes(event),
        state.phase is Receiving,
    ensures
        ({
            let (after, deed) = state.next(event);
            &&& event matches Event::Command(Command::Flush(reply)) ==> deed is Flush && after == (
            State {
                request: Some(Request::Flush(reply)),
                phase: Phase::Flushing(Reason::Request),
                ..state
            })
            &&& event matches Event::Command(Command::Shutdown(reply)) ==> deed is Flush && after
                == (State {
                request: Some(Request::Shutdown(reply)),
                phase: Phase::Flushing(Reason::Request),
                ..state
            })
            &&& event is Disconnected ==> deed is Flush && after == (State {
                disconnected: true,
                phase: Phase::Flushing(Reason::Disconnected),
                ..state
            })
            &&& event is Deadline ==> deed is ReadClock && after == (State {
                phase: Phase::DeadlineClock,
                ..state
            })
        }),
{
}

/// Whether the files are to be flushed by the clock.
pub open spec fn flush_is_due<R>(state: State<R>, now: u64) -> bool {
    state.next_flush is Some && state.next_flush->0 <= now
}

/// Whether a look at the rotation is followed by what it was made for: the batch is
/// written, or the files are flushed where that is due, and else the worker goes on.
pub open spec fn follows_a_look<R>(looked: State<R>, now: u64, after: After, step: Step<R>) -> bool {
    match after {
        After::WriteBatch => step.1 is Write && step.0 == (State { phase: Phase::Writing, ..looked }),
        After::FlushIfDue => if flush_is_due(looked, now) {
            step.1 is Flush && step.0 == (State {
                phase: Phase::Flushing(Reason::Deadline(now)),
                ..looked
            })
        } else {
            goes_on(looked, step)
        },
    }
}

/// The time of day is asked for exactly where the deadline of the rotation has
/// passed.
pub proof fn rotation_is_looked_at_when_due<R>(state: State<R>, now: u64)
    requires
        state.wf(),
        state.phase is BatchClock || state.phase is DeadlineClock,
    ensures
        ({
            let step = state.next(Event::Clock(now));
            let after = if state.phase is BatchClock {
                After::WriteBatch
            } else {
                After::FlushIfDue
            };
            let due = state.rotation is Some && state.rotation->0.next_deadline <= now;
            &&& due ==> step.1 is ReadWallClock && step.0 == (State {
                phase: Phase::WallClock(now, after),
                ..state
            })
            &&& !due ==> follows_a_look(state, now, after, step)
        }),
{
}

/// Whether a schedule is one that was brought up to a point in time: its period is
/// the later of the one it had and the one that the point lies in, and its deadline
/// falls on the start of the period after that point.
pub open spec fn is_brought_up_to(
    schedule: RotationSchedule,
    earlier: RotationSchedule,
    unix_nanos: int,
    now: int,
) -> bool {
    let here = period_at(earlier.policy, unix_nanos);
    &&& schedule.policy == earlier.policy
    &&& schedule.current_period.0 >= here
    &&& schedule.current_period.0 >= earlier.current_period.0
    &&& schedule.current_period.0 == here || schedule.current_period.0 == earlier.current_period.0
    &&& schedule.next_deadline - now + unix_nanos == period_second(earlier.policy, here + 1)
        * NANOS_PER_SECOND
}

/// Once the time of day is known, files are archived exactly where a later period
/// has begun, and under the name of the period that they were written in. A period
/// without a name ends the work. Where nothing is to be archived, the schedule is
/// brought up to date and the worker does what it looked for.
pub proof fn files_of_an_earlier_period_are_archived<R>(state: State<R>, unix_nanos: i128)
    requires
        state.wf(),
        state.takes(Event::WallClock(unix_nanos)),
        state.phase is WallClock,
    ensures
        ({
            let step = state.next(Event::WallClock(unix_nanos));
            let now = state.phase->WallClock_0;
            let after = state.phase->WallClock_1;
            let schedule = state.rotation->0;
            let period = schedule.current_period.0 as int;
            let over = period < period_at(schedule.policy, unix_nanos as int);
            &&& !over ==> step.0.rotation is Some && is_brought_up_to(
                step.0.rotation->0,
                schedule,
                unix_nanos as int,
                now as int,
            ) && follows_a_look(State { rotation: step.0.rotation, ..state }, now, after, step)
            &&& over && suffix_error(schedule.policy, period) is None ==> {
                &&& step.0 == (State { phase: Phase::Rotating(now, unix_nanos, after), ..state })
                &&& step.1 matches Deed::Rotate(suffix) && names_period(
                    schedule.policy,
                    period,
                    suffix,
                )
            }
            &&& over && suffix_error(schedule.policy, period) is Some ==> step.1 == Deed::<R>::Stop(
                Err(suffix_error(schedule.policy, period)->0.text()),
            )
        }),
{
    let schedule = state.rotation->0;
    periods_in_the_calendar_have_a_name(schedule.policy, schedule.current_period.0 as int);
    lemma_renewed(schedule, unix_nanos, state.phase->WallClock_0);
}

/// Once the files are archived, the schedule is brought up to date and the worker
/// does what it looked for.
pub proof fn archived_files_are_followed_by_the_new_period<R>(state: State<R>)
    requires
        state.wf(),
        state.phase is Rotating,
    ensures
        ({
            let step = state.next(Event::Done);
            let now = state.phase->Rotating_0;
            let unix_nanos = state.phase->Rotating_1;
            &&& step.0.rotation is Some
            &&& is_brought_up_to(
                step.0.rotation->0,
                state.rotation->0,
                unix_nanos as int,
                now as int,
            )
            &&& follows_a_look(
                State { rotation: step.0.rotation, ..state },
                now,
                state.phase->Rotating_2,
                step,
            )
        }),
{
    lemma_renewed(state.rotation->0, state.phase->Rotating_1, state.phase->Rotating_0);
}

proof fn lemma_renewed(schedule: RotationSchedule, unix_nanos: i128, now: u64)
    requires
        schedule.wf(),
        has_local_time(unix_nanos),
    ensures
        is_brought_up_to(
            schedule.renewed(unix_nanos as int, now as int),
            schedule,
            unix_nanos as int,
            now as int,
        ),
{
    renewed_schedules_are_current(schedule, unix_nanos, now);
}

/// Once a batch is written none of it is held any more. It is flushed at once where
/// the policy asks for that after every line, or after errors and it holds one; where
/// there is a deadline the clock is read; and else the worker goes on.
pub proof fn written_batches_are_let_go<R>(state: State<R>)
    requires
        state.wf(),
        state.phase is Writing,
    ensures
        ({
            let step = state.next(Event::Done);
            let rest = State { batch: Seq::empty(), ..state };
            let at_once = match state.flush_policy {
                FlushPolicy::EveryLine => true,
                FlushPolicy::IntervalAndError(_) => exists|i: int|
                    0 <= i < state.batch.len() && (#[trigger] state.batch[i]).destination is Error,
                FlushPolicy::Interval(_) => false,
            };
            &&& step.0.batch.len() == 0
            &&& at_once ==> step.1 is Flush && step.0 == (State {
                phase: Phase::Flushing(Reason::Batch),
                ..rest
            })
            &&& !at_once && state.next_flush is Some ==> step.1 is ReadClock && step.0 == (State {
                phase: Phase::FlushClock,
                ..rest
            })
            &&& !at_once && state.next_flush is None ==> goes_on(rest, step)
        }),
{
}

/// After a batch the files are flushed exactly where the deadline has passed.
pub proof fn passed_deadlines_flush_behind_a_batch<R>(state: State<R>, now: u64)
    requires
        state.wf(),
        state.phase is FlushClock,
    ensures
        flush_is_due(state, now) ==> state.next(Event::Clock(now)) == (
            State { phase: Phase::Flushing(Reason::Batch), ..state },
            Deed::<R>::Flush,
        ),
        !flush_is_due(state, now) ==> goes_on(state, state.next(Event::Clock(now))),
{
}

/// Whether the deadline of the next flush lies one interval behind a point in time.
pub open spec fn is_one_interval_behind(
    deadline: Option<u128>,
    policy: FlushPolicy,
    now: u64,
) -> bool {
    match policy {
        FlushPolicy::Interval(interval) => deadline is Some && deadline->0 == now
            + interval.total_nanos(),
        FlushPolicy::IntervalAndError(interval) => deadline is Some && deadline->0 == now
            + interval.total_nanos(),
        FlushPolicy::EveryLine => deadline is None,
    }
}

/// After a flush that nobody asked for the worker goes on, with the next flush one
/// interval later; after that of a closed queue it stops.
pub proof fn flushes_set_the_next_deadline<R>(state: State<R>)
    requires
        state.wf(),
        state.phase is Flushing,
    ensures
        ({
            let step = state.next(Event::Done);
            let rest = State { next_flush: step.0.next_flush, ..state };
            &&& state.phase == Phase::Flushing(Reason::Batch) && state.flush_policy is EveryLine
                ==> goes_on(state, step)
            &&& state.phase == Phase::Flushing(Reason::Batch) && !(state.flush_policy is EveryLine)
                ==> step.1 is ReadClock && step.0 == (State { phase: Phase::Rearming, ..state })
            &&& state.phase matches Phase::Flushing(Reason::Deadline(now)) ==> {
                &&& is_one_interval_behind(step.0.next_flush, state.flush_policy, now)
                &&& goes_on(rest, step)
            }
            &&& state.phase == Phase::Flushing(Reason::Disconnected) ==> step.1
                == Deed::<R>::Stop(Ok(()))
        }),
{
}

/// The clock that is read after a flush sets the next deadline one interval later.
pub proof fn clocks_set_the_next_deadline<R>(state: State<R>, now: u64)
    requires
        state.wf(),
        state.phase is Rearming,
    ensures
        ({
            let step = state.next(Event::Clock(now));
            &&& is_one_interval_behind(step.0.next_flush, state.flush_policy, now)
            &&& goes_on(State { next_flush: step.0.next_flush, ..state }, step)
        }),
{
}

/// A flush that was asked for and went well is answered with success, whatever the
/// policy. Then the worker goes on where a flush was asked for, after reading the
/// clock where flushes have a deadline, and stops well where a shutdown was.
pub proof fn successful_flushes_are_answered_with_success<R>(state: State<R>)
    requires
        state.wf(),
        state.phase == Phase::Flushing(Reason::Request),
    ensures
        ({
            let (after, deed) = state.next(Event::Done);
            let (later, next_deed) = after.next(Event::Done);
            &&& after.takes(Event::Done)
            &&& after == (State {
                request: None,
                failure: None,
                phase: Phase::Replying(state.request->0 is Shutdown),
                ..state
            })
            &&& state.request matches Some(Request::Flush(reply)) ==> {
                &&& deed == Deed::Reply(reply, Ok(()))
                &&& !(next_deed is Stop)
                &&& state.flush_policy is EveryLine ==> goes_on(after, (later, next_deed))
                &&& !(state.flush_policy is EveryLine) ==> next_deed is ReadClock && later == (State {
                    phase: Phase::Rearming,
                    ..after
                })
            }
            &&& state.request matches Some(Request::Shutdown(reply)) ==> {
                &&& deed == Deed::Reply(reply, Ok(()))
                &&& next_deed == Deed::<R>::Stop(Ok(()))
            }
        }),
{
}

/// A flush that was asked for and failed is answered with its error.
pub proof fn failed_flushes_are_answered_with_their_error<R>(state: State<R>, text: String)
    requires
        state.wf(),
        state.phase == Phase::Flushing(Reason::Request),
    ensures
        ({
            let (after, deed) = state.next(Event::Failed(text));
            &&& state.request matches Some(Request::Flush(reply)) ==> deed == Deed::Reply(
                reply,
                Err(text@),
            )
            &&& state.request matches Some(Request::Shutdown(reply)) ==> deed == Deed::Reply(
                reply,
                Err(text@),
            )
            &&& after.request is None
            &&& after.next(Event::Done).1 == Deed::<R>::Stop(Err(text@))
        }),
{
}

/// A failure elsewhere stops the worker with its error, and nothing is answered.
pub proof fn other_failures_stop_with_their_error<R>(state: State<R>, text: String)
    requires
        state.wf(),
        state.takes(Event::Failed(text)),
        state.phase != Phase::Flushing(Reason::Request),
    ensures
        state.next(Event::Failed(text)).1 == Deed::<R>::Stop(Err(text@)),
        state.next(Event::Failed(text)).0.phase is Stopped,
        state.next(Event::Failed(text)).0.batch == state.batch,
        state.next(Event::Failed(text)).0.request == state.request,
{
}

/// A stopped worker takes nothing any more.
pub proof fn stopped_workers_take_nothing<R>(state: State<R>, event: Event<R>, later: Event<R>)
    requires
        state.wf(),
        state.takes(event),
        state.next(event).1 is Stop,
    ensures
        !state.next(event).0.takes(later),
{
}

/// Whether a deed tells of an error.
pub open spec fn tells_of_an_error<R>(deed: Deed<R>) -> bool {
    deed matches Deed::Stop(Err(_)) || deed matches Deed::Reply(_, Err(_))
}

/// Whether an event is a reason for an error: something failed, or the files of a
/// period that is over have no name.
pub open spec fn gives_reason_for_an_error<R>(state: State<R>, event: Event<R>) -> bool {
    ||| event is Failed
    ||| {
        &&& state.phase is WallClock
        &&& event matches Event::WallClock(unix_nanos) && state.rotation is Some && period_at(
            state.rotation->0.policy,
            unix_nanos as int,
        ) > state.rotation->0.current_period.0
        &&& suffix_error(state.rotation->0.policy, state.rotation->0.current_period.0 as int) is Some
    }
}

/// The worker tells of an error, to those who wait or when it stops, only in a run in
/// which something gave reason for one.
pub proof fn errors_have_a_reason<R>(state: State<R>, events: Seq<Event<R>>, event: Event<R>)
    requires
        state.wf(),
        state.phase is Receiving,
        state.takes_all(events.push(event)),
        tells_of_an_error(state.after(events).next(event).1),
    ensures
        exists|i: int|
            0 <= i <= events.len() && gives_reason_for_an_error(
                state.after(events.push(event).take(i)),
                #[trigger] events.push(event)[i],
            ),
{
    let all = events.push(event);
    assert(all.drop_last() =~= events);
    if forall|i: int|
        0 <= i < events.len() ==> !gives_reason_for_an_error(
            state.after(events.take(i)),
            #[trigger] events[i],
        ) {
        lemma_no_reason_no_failure(state, events);
        worker_stays_in_order(state, events);
        assert(all.take(events.len() as int) =~= events);
        assert(all[events.len() as int] == event);
        lemma_error_step(state.after(events), event);
    } else {
        let i = choose|i: int|
            0 <= i < events.len() && gives_reason_for_an_error(
                state.after(events.take(i)),
                #[trigger] events[i],
            );
        assert(all.take(i) =~= events.take(i));
        assert(all[i] == events[i]);
    }
}

proof fn lemma_error_step<R>(state: State<R>, event: Event<R>)
    requires
        state.wf(),
        state.takes(event),
        state.failure is None,
        tells_of_an_error(state.next(event).1),
    ensures
        gives_reason_for_an_error(state, event),
{
}

proof fn lemma_failure_step<R>(state: State<R>, event: Event<R>)
    requires
        state.wf(),
        state.takes(event),
        state.failure is None,
        state.next(event).0.failure is Some,
    ensures
        gives_reason_for_an_error(state, event),
{
}

proof fn lemma_no_reason_no_failure<R>(state: State<R>, events: Seq<Event<R>>)
    requires
        state.wf(),
        state.phase is Receiving,
        state.takes_all(events),
        forall|i: int|
            0 <= i < events.len() ==> !gives_reason_for_an_error(
                state.after(events.take(i)),
                #[trigger] events[i],
            ),
    ensures
        state.after(events).failure is None,
    decreases events.len(),
{
    if events.len() > 0 {
        let earlier_events = events.drop_last();
        assert forall|i: int| 0 <= i < earlier_events.len() implies !gives_reason_for_an_error(
            state.after(earlier_events.take(i)),
            #[trigger] earlier_events[i],
        ) by {
            assert(events[i] == earlier_events[i]);
            assert(events.take(i) =~= earlier_events.take(i));
        }
        lemma_no_reason_no_failure(state, earlier_events);
        worker_stays_in_order(state, earlier_events);
        let last = events.len() - 1;
        assert(events.take(last) =~= earlier_events);
        assert(!gives_reason_for_an_error(state.after(events.take(last)), events[last]));
        if state.after(events).failure is Some {
            lemma_failure_step(state.after(earlier_events), events[last]);
        }
    }
}

/// A new worker waits for its first command, with the first flush one interval away.
pub proof fn new_workers_wait<R>(
    flush_policy: FlushPolicy,
    rotation: Option<RotationSchedule>,
    batch_limit: usize,
    now: u64,
    made: (Worker<R>, Action<R>),
)
    requires
        rotation matches Some(schedule) ==> schedule.wf(),
        call_ensures(Worker::<R>::new, (flush_policy, rotation, batch_limit, now), made),
    ensures
        made.0@.phase is Receiving,
        made.0@.batch.len() == 0,
        made.0@.request is None,
        made.0@.rotation == rotation,
        made.0@.flush_policy == flush_policy,
        made.0@.batch_limit == batch_limit,
        is_one_interval_behind(made.0@.next_flush, flush_policy, now),
        made.1@ matches Deed::Receive(deadline) && is_earliest(
            deadline,
            made.0@.next_flush,
            if rotation is Some {
                Some(rotation->0.next_deadline)
            } else {
                None
            },
        ),
{
}

/// The earlier of two deadlines is one of them, and neither comes before it.
pub proof fn the_earlier_deadline_comes_first(
    first: Option<u128>,
    second: Option<u128>,
    found: Option<u128>,
)
    requires
        call_ensures(earliest_deadline, (first, second), found),
    ensures
        is_earliest(found, first, second),
        is_earliest(earlier(first, second), first, second),
{
}

/// The time that is left runs exactly to the deadline, and there is none once that has
/// passed.
pub proof fn the_time_left_ends_at_the_deadline(deadline: u128, now: u64, left: Duration)
    requires
        call_ensures(time_left, (deadline, now), left),
    ensures
        left.nanos < 1_000_000_000,
        now >= deadline <==> left.secs == 0 && left.nanos == 0,
        now < deadline && deadline - now < 1_000_000_000 * 0x1_0000_0000_0000_0000 ==> now
            + 1_000_000_000 * left.secs + left.nanos == deadline,
        deadline - now >= 1_000_000_000 * 0x1_0000_0000_0000_0000 ==> left.secs == u64::MAX
            && left.nanos == 999_999_999,
{
}

/// A batch holds an error exactly where one of its lines goes to the error file.
pub proof fn errors_are_seen_anywhere_in_a_batch(batch: Seq<QueuedLine>, i: int)
    requires
        0 <= i < batch.len(),
        batch[i].destination is Error,
    ensures
        holds_error(batch),
        !holds_error(batch.filter(|line: QueuedLine| !(line.destination is Error))),
{
    let others = |line: QueuedLine| !(line.destination is Error);
    let rest = batch.filter(others);
    assert forall|j: int| 0 <= j < rest.len() implies !((#[trigger] rest[j]).destination is Error) by {
        batch.lemma_filter_pred(others, j);
    }
}

/// A reply handle and its answer belong together: whoever asked is answered, and by
/// the outcome of the flush that was made for it.
pub proof fn answers_go_to_whoever_asked<R>(
    state: State<R>,
    event: Event<R>,
    reply: R,
    outcome: Result<(), Seq<char>>,
)
    requires
        state.wf(),
        state.takes(event),
        state.next(event).1 == Deed::Reply(reply, outcome),
    ensures
        state.phase == Phase::Flushing(Reason::Request),
        state.request == Some(Request::Flush(reply)) || state.request == Some(
            Request::Shutdown(reply),
        ),
        outcome is Ok <==> event is Done,
        event matches Event::Failed(text) ==> outcome == Err::<(), Seq<char>>(text@),
{
}

/// The worker stops only for a failure, a period without a name, a shutdown that was
/// answered, or a queue that is closed.
pub proof fn workers_stop_only_for_a_reason<R>(state: State<R>, event: Event<R>)
    requires
        state.wf(),
        state.takes(event),
        state.next(event).1 is Stop,
    ensures
        ({
            ||| gives_reason_for_an_error(state, event)
            ||| state.phase matches Phase::Replying(shutdown) && (shutdown || state.failure is Some)
            ||| state.phase == Phase::Flushing(Reason::Disconnected)
        }),
{
}

/// Whether an event can come of a deed: a command, a passed deadline or a closed queue
/// of waiting, a command, an empty or a closed queue of looking, a reading of a clock of
/// reading it, and success or failure of what is done to the files.
pub open spec fn can_come_of<R>(deed: Deed<R>, event: Event<R>) -> bool {
    match event {
        Event::Command(_) => deed is Receive || deed is TryReceive,
        Event::Disconnected => deed is Receive || deed is TryReceive,
        Event::Deadline => deed is Receive,
        Event::Empty => deed is TryReceive,
        Event::Clock(_) => deed is ReadClock,
        Event::WallClock(_) => deed is ReadWallClock,
        Event::Done => deed is Rotate || deed is Write || deed is Flush || deed is Reply,
        Event::Failed(_) => deed is Rotate || deed is Write || deed is Flush,
    }
}

/// Whether a time of day is one that the worker cannot go on from: the clock of the log
/// cannot show it, or the files of a period that starts past the end of the calendar
/// would have to be archived.
pub open spec fn is_beyond_the_calendar<R>(state: State<R>, event: Event<R>) -> bool {
    event matches Event::WallClock(unix_nanos) && (unix_nanos + 28_800_000_000_000 > i128::MAX || (
    period_at(state.rotation->0.policy, unix_nanos as int) > state.rotation->0.current_period.0
        && starts_past_calendar(
        state.rotation->0.policy,
        state.rotation->0.current_period.0 as int,
    )))
}

/// Behind every deed the worker takes whatever can come of it, and nothing else.
pub proof fn workers_await_whatever_can_come<R>(state: State<R>, event: Event<R>, outcome: Event<R>)
    requires
        state.wf(),
        state.takes(event),
    ensures
        ({
            let (after, deed) = state.next(event);
            after.awaits(outcome) <==> can_come_of(deed, outcome) && !is_beyond_the_calendar(
                after,
                outcome,
            )
        }),
{
}

/// The first command is awaited like every other.
pub proof fn new_workers_await_whatever_can_come<R>(
    flush_policy: FlushPolicy,
    rotation: Option<RotationSchedule>,
    batch_limit: usize,
    now: u64,
    made: (Worker<R>, Action<R>),
    outcome: Event<R>,
)
    requires
        rotation matches Some(schedule) ==> schedule.wf(),
        call_ensures(Worker::<R>::new, (flush_policy, rotation, batch_limit, now), made),
    ensures
        made.0@.awaits(outcome) <==> can_come_of(made.1@, outcome),
{
}

/// What the worker is asked whether it accepts is what it takes, and what it is told
/// leads to the state and the deed that follow.
pub proof fn workers_do_what_is_said_of_them<R>(
    worker: Worker<R>,
    event: Event<R>,
    accepted: bool,
    action: Action<R>,
)
    requires
        worker@.wf(),
        call_ensures(Worker::<R>::accepts, (&worker, &event), accepted),
    ensures
        accepted <==> worker@.awaits(event),
        forall|changing: &mut Worker<R>| #[trigger]
            call_ensures(Worker::<R>::step, (changing, event), action) ==> (
            final(changing)@,
            action@,
        ) == (*changing)@.next(event) && final(changing)@.wf(),
{
}

/// The lines that are to be written are those of the batch.
pub proof fn batches_are_handed_out<R>(worker: Worker<R>, lines: &[QueuedLine])
    requires
        worker@.wf(),
        call_ensures(Worker::<R>::batch, (&worker,), lines),
    ensures
        lines@ == worker@.batch,
{
}

} // verus!
