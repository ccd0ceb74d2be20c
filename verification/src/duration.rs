//! Spans of time.

use vstd::prelude::*;

verus! {

/// Nanoseconds in one second.
pub const NANOS_PER_SECOND: i128 = 1_000_000_000;

/// A span of whole seconds and nanoseconds below one second.
#[derive(Debug, Clone, Copy, PartialEq, Eq, Structural)]
pub struct Duration {
    pub secs: u64,
    pub nanos: u32,
}

impl Duration {
    /// The nanoseconds stay below one second.
    pub open spec fn wf(self) -> bool {
        self.nanos < NANOS_PER_SECOND
    }

    /// The length of the span in nanoseconds.
    pub open spec fn total_nanos(self) -> nat {
        (self.secs * NANOS_PER_SECOND + self.nanos) as nat
    }

    /// A span of seconds and nanoseconds.
    pub fn new(secs: u64, nanos: u32) -> (r: Self)
        requires
            nanos < NANOS_PER_SECOND,
        ensures
            r.wf(),
            r == (Duration { secs, nanos }),
    {
        Duration { secs, nanos }
    }

    /// A span of whole seconds.
    pub fn from_secs(secs: u64) -> (r: Self)
        ensures
            r.wf(),
            r == (Duration { secs, nanos: 0 }),
    {
        Duration { secs, nanos: 0 }
    }

    /// The length of the span in nanoseconds.
    pub fn as_nanos(&self) -> (r: u128)
        ensures
            r == self.total_nanos(),
    {
        self.secs as u128 * 1_000_000_000 + self.nanos as u128
    }

    /// Whether the span has no length.
    pub fn is_zero(&self) -> (r: bool)
        ensures
            r == (self.total_nanos() == 0),
    {
        self.secs == 0 && self.nanos == 0
    }
}

/// Spans of equal length are the same span.
pub proof fn duration_is_its_length(left: Duration, right: Duration)
    requires
        left.wf(),
        right.wf(),
        left.total_nanos() == right.total_nanos(),
    ensures
        left == right,
{
}

/// A second is a thousand million nanoseconds, and nothing shorter than one nanosecond
/// is a span.
pub proof fn seconds_are_nanoseconds(duration: Duration)
    ensures
        duration.total_nanos() == 1_000_000_000 * duration.secs + duration.nanos,
        duration.total_nanos() == 0 <==> duration.secs == 0 && duration.nanos == 0,
{
}

/// Spans are what they were made of, and answer with their length.
pub proof fn durations_do_what_is_said_of_them(
    secs: u64,
    nanos: u32,
    made: Duration,
    whole: Duration,
    length: u128,
    zero: bool,
)
    requires
        nanos < 1_000_000_000,
        call_ensures(Duration::new, (secs, nanos), made),
        call_ensures(Duration::from_secs, (secs,), whole),
        call_ensures(Duration::as_nanos, (&made,), length),
        call_ensures(Duration::is_zero, (&made,), zero),
    ensures
        made.secs == secs && made.nanos == nanos,
        whole.secs == secs && whole.nanos == 0,
        length == 1_000_000_000 * secs + nanos,
        zero <==> secs == 0 && nanos == 0,
{
}

} // verus!
