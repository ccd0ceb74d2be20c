//! The size with which the first segment of a line is asked for.

use vstd::prelude::*;

use crate::line::MAX_INITIAL_LINE_BYTES;

verus! {

/// The smallest first segment, unless lines are limited to less.
pub const MIN_INITIAL_LINE_BYTES: usize = 512;

/// How many low-usage lines in a row shrink the first segment.
pub const LOW_USAGE_SAMPLE_COUNT: usize = 512;

/// The smaller of two sizes.
pub open spec fn at_most(size: int, limit: int) -> int {
    if size < limit {
        size
    } else {
        limit
    }
}

/// The current size of first segments, and how many low-usage lines in a row
/// have been seen at that size.
#[derive(Debug, Clone, Copy, PartialEq, Eq, Structural)]
pub struct LineCapacityHint {
    pub capacity: usize,
    pub low_usage_count: usize,
    pub minimum: usize,
    pub maximum: usize,
}

impl LineCapacityHint {
    /// The size stays between the two bounds, and on one of the three steps
    /// 512, 1024 and 2048 where lines may be long enough for all of them.
    pub open spec fn wf(self) -> bool {
        &&& self.minimum <= MIN_INITIAL_LINE_BYTES
        &&& self.maximum <= MAX_INITIAL_LINE_BYTES
        &&& self.minimum <= self.capacity <= self.maximum <= 4 * self.minimum
        &&& self.low_usage_count < LOW_USAGE_SAMPLE_COUNT
        &&& self.maximum == MAX_INITIAL_LINE_BYTES ==> {
            &&& self.minimum == MIN_INITIAL_LINE_BYTES
            &&& self.capacity == 512 || self.capacity == 1024 || self.capacity == 2048
        }
    }

    /// A line that used at most a quarter of the first segment.
    pub open spec fn is_low_usage(self, used: nat) -> bool {
        used <= self.capacity / 4
    }

    /// The hint one step larger, with no low-usage lines counted.
    pub open spec fn grown(self) -> Self {
        LineCapacityHint {
            capacity: at_most(2 * self.capacity, self.maximum as int) as usize,
            low_usage_count: 0,
            ..self
        }
    }

    /// The hint one step smaller, with no low-usage lines counted.
    pub open spec fn shrunk(self) -> Self {
        LineCapacityHint {
            capacity: if self.capacity / 2 < self.minimum {
                self.minimum
            } else {
                self.capacity / 2
            },
            low_usage_count: 0,
            ..self
        }
    }

    /// The hint after a line of `used` bytes: an overflow grows it; at its
    /// smallest size it stays; a line above a quarter starts the count anew; and
    /// the last of a full count of low-usage lines shrinks it.
    pub open spec fn after_line(self, used: nat, overflowed: bool) -> Self {
        if overflowed {
            self.grown()
        } else if self.capacity <= self.minimum {
            self
        } else if !self.is_low_usage(used) {
            LineCapacityHint { low_usage_count: 0, ..self }
        } else if self.low_usage_count + 1 < LOW_USAGE_SAMPLE_COUNT {
            LineCapacityHint { low_usage_count: (self.low_usage_count + 1) as usize, ..self }
        } else {
            self.shrunk()
        }
    }

    /// The hint after several lines, none of which overflowed.
    pub open spec fn after_lines(self, used: Seq<nat>) -> Self
        decreases used.len(),
    {
        if used.len() == 0 {
            self
        } else {
            self.after_lines(used.drop_last()).after_line(used.last(), false)
        }
    }

    /// Starts at the smallest size that the line limit allows.
    pub fn new(max_line_bytes: usize) -> (hint: Self)
        ensures
            hint.wf(),
            hint.minimum == at_most(max_line_bytes as int, MIN_INITIAL_LINE_BYTES as int),
            hint.maximum == at_most(max_line_bytes as int, MAX_INITIAL_LINE_BYTES as int),
            hint.capacity == hint.minimum,
            hint.low_usage_count == 0,
    {
        let minimum: usize = if max_line_bytes < MIN_INITIAL_LINE_BYTES {
            max_line_bytes
        } else {
            MIN_INITIAL_LINE_BYTES
        };
        let maximum: usize = if max_line_bytes < MAX_INITIAL_LINE_BYTES {
            max_line_bytes
        } else {
            MAX_INITIAL_LINE_BYTES
        };
        LineCapacityHint { capacity: minimum, low_usage_count: 0, minimum, maximum }
    }

    /// The size to ask for.
    pub fn capacity(&self) -> (r: usize)
        ensures
            r == self.capacity,
    {
        self.capacity
    }

    /// Takes a finished line into account.
    pub fn observe(&mut self, used: usize, overflowed: bool)
        requires
            old(self).wf(),
        ensures
            final(self).wf(),
            *final(self) == old(self).after_line(used as nat, overflowed),
    {
        if overflowed {
            self.low_usage_count = 0;
            if self.capacity >= self.maximum {
                return ;
            }
            let doubled = 2 * self.capacity;
            self.capacity = if doubled < self.maximum {
                doubled
            } else {
                self.maximum
            };
            return ;
        }
        if self.capacity <= self.minimum {
            return ;
        }
        if used > self.capacity / 4 {
            self.low_usage_count = 0;
            return ;
        }
        let samples = self.low_usage_count + 1;
        if samples < LOW_USAGE_SAMPLE_COUNT {
            self.low_usage_count = samples;
            return ;
        }
        self.low_usage_count = 0;
        let half = self.capacity / 2;
        self.capacity = if half < self.minimum {
            self.minimum
        } else {
            half
        };
    }
}

proof fn lemma_counts_low_usage(hint: LineCapacityHint, used: Seq<nat>)
    requires
        hint.wf(),
        hint.capacity > hint.minimum,
        forall|i: int| 0 <= i < used.len() ==> hint.is_low_usage(#[trigger] used[i]),
        hint.low_usage_count + used.len() < LOW_USAGE_SAMPLE_COUNT,
    ensures
        hint.after_lines(used) == (LineCapacityHint {
            low_usage_count: (hint.low_usage_count + used.len()) as usize,
            ..hint
        }),
    decreases used.len(),
{
    if used.len() > 0 {
        assert forall|i: int| 0 <= i < used.drop_last().len() implies hint.is_low_usage(
            #[trigger] used.drop_last()[i],
        ) by {
            assert(used.drop_last()[i] == used[i]);
        }
        lemma_counts_low_usage(hint, used.drop_last());
        assert(hint.is_low_usage(used[used.len() - 1]));
    }
}

/// Low-usage lines in a row leave the size alone until a full count of them has
/// been seen, and then shrink it by exactly one step.
pub proof fn low_usage_run_shrinks_by_one_step(hint: LineCapacityHint, used: Seq<nat>)
    requires
        hint.wf(),
        hint.capacity > hint.minimum,
        forall|i: int| 0 <= i < used.len() ==> hint.is_low_usage(#[trigger] used[i]),
        hint.low_usage_count + used.len() <= LOW_USAGE_SAMPLE_COUNT,
    ensures
        hint.low_usage_count + used.len() < LOW_USAGE_SAMPLE_COUNT ==> hint.after_lines(
            used,
        ).capacity == hint.capacity,
        hint.low_usage_count + used.len() == LOW_USAGE_SAMPLE_COUNT ==> hint.after_lines(used)
            == hint.shrunk(),
{
    if hint.low_usage_count + used.len() < LOW_USAGE_SAMPLE_COUNT {
        lemma_counts_low_usage(hint, used);
    } else {
        assert forall|i: int| 0 <= i < used.drop_last().len() implies hint.is_low_usage(
            #[trigger] used.drop_last()[i],
        ) by {
            assert(used.drop_last()[i] == used[i]);
        }
        lemma_counts_low_usage(hint, used.drop_last());
        assert(hint.is_low_usage(used[used.len() - 1]));
    }
}

/// Two overflowing lines bring a hint from any size to its largest, whatever
/// was counted before.
pub proof fn overflows_reach_the_largest_size(hint: LineCapacityHint, first: nat, second: nat)
    requires
        hint.wf(),
    ensures
        hint.after_line(first, true).after_line(second, true).capacity == hint.maximum,
        hint.after_line(first, true).after_line(second, true).low_usage_count == 0,
{
}

/// An overflow doubles the size, as far as the largest allows, and forgets the count.
pub proof fn overflows_double_the_size(hint: LineCapacityHint, used: nat)
    requires
        hint.wf(),
    ensures
        ({
            let next = hint.after_line(used, true);
            &&& next.low_usage_count == 0
            &&& next.minimum == hint.minimum && next.maximum == hint.maximum
            &&& 2 * hint.capacity <= hint.maximum ==> next.capacity == 2 * hint.capacity
            &&& 2 * hint.capacity > hint.maximum ==> next.capacity == hint.maximum
        }),
{
}

/// A line that did not overflow never makes the size grow. It shrinks only with the
/// last of 512 lines in a row that used no more than a quarter, then to half, and never
/// below the smallest. A line that used more starts the row anew, and at the smallest
/// size nothing is counted.
pub proof fn only_low_usage_shrinks_the_size(hint: LineCapacityHint, used: nat)
    requires
        hint.wf(),
    ensures
        ({
            let next = hint.after_line(used, false);
            let small = hint.capacity == hint.minimum;
            let low = 4 * used <= hint.capacity;
            &&& next.minimum == hint.minimum && next.maximum == hint.maximum
            &&& small ==> next == hint
            &&& !small && !low ==> next.capacity == hint.capacity && next.low_usage_count == 0
            &&& !small && low && hint.low_usage_count < 511 ==> next.capacity == hint.capacity
                && next.low_usage_count == hint.low_usage_count + 1
            &&& !small && low && hint.low_usage_count == 511 ==> {
                &&& next.low_usage_count == 0
                &&& next.minimum <= next.capacity < hint.capacity
                &&& next.capacity == hint.capacity / 2 || next.capacity == hint.minimum
                &&& next.capacity >= hint.capacity / 2
            }
        }),
{
}

/// A new hint starts at 512 bytes and may reach 2048, or less where lines are shorter.
pub proof fn hints_start_small(max_line_bytes: usize, hint: LineCapacityHint)
    requires
        call_ensures(LineCapacityHint::new, (max_line_bytes,), hint),
    ensures
        hint.low_usage_count == 0,
        hint.capacity == hint.minimum,
        max_line_bytes >= 512 ==> hint.minimum == 512,
        max_line_bytes < 512 ==> hint.minimum == max_line_bytes,
        max_line_bytes >= 2048 ==> hint.maximum == 2048,
        max_line_bytes < 2048 ==> hint.maximum == max_line_bytes,
{
}

/// A hint answers with its size, and taking a line into account changes it as its use
/// and its overflow ask for.
pub proof fn hints_do_what_is_said_of_them(
    hint: LineCapacityHint,
    size: usize,
    used: usize,
    overflowed: bool,
)
    requires
        call_ensures(LineCapacityHint::capacity, (&hint,), size),
    ensures
        size == hint.capacity,
        forall|changing: &mut LineCapacityHint| #[trigger]
            call_ensures(LineCapacityHint::observe, (changing, used, overflowed), ()) && (
            *changing).wf() ==> {
                let next = *final(changing);
                let before = *changing;
                &&& next == before.after_line(used as nat, overflowed)
                &&& next.capacity > before.capacity ==> overflowed
                &&& next.capacity < before.capacity ==> !overflowed && 4 * used <= before.capacity
                &&& next.maximum == before.maximum
            },
{
}

} // verus!
