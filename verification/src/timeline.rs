//! Arrival schedules in whole nanoseconds.
//!
//! A stage ramps its target rate linearly from `start_rate` to `end_rate`
//! (instances per second) over `duration` nanoseconds. The schedule lists, for
//! each instance of the stage, the offset from the stage's start at which the
//! instance is launched. All arithmetic is exact: offsets are the real-valued
//! solutions rounded down to a whole nanosecond.
use vstd::prelude::*;

verus! {

/// Nanoseconds in one second.
pub const NANOS_PER_SEC: u64 = 1_000_000_000;

/// Largest product of a rate (per second) and a duration (nanoseconds) that a
/// schedule accepts. It is `2^62`, a little over 4.6 thousand million instances
/// in one stage, and keeps every intermediate value within 128 bits.
pub const MAX_LOAD: u64 = 4_611_686_018_427_387_904;

/// `a / b` rounded up, for `a >= 0` and `b > 0`.
pub open spec fn ceil_div(a: int, b: int) -> int {
    (a + b - 1) / b
}

/// Number of instances that a stage launches: the area under its rate ramp,
/// rounded up. For a constant rate this is rate times duration; otherwise it
/// is the area of the trapezoid between the two rates.
pub open spec fn total_count(start_rate: int, end_rate: int, duration: int) -> int {
    if start_rate == end_rate {
        ceil_div(duration * end_rate, NANOS_PER_SEC as int)
    } else {
        ceil_div(duration * start_rate + duration * end_rate, 2 * NANOS_PER_SEC)
    }
}

/// `r` is the square root of `n` rounded down.
pub open spec fn is_floor_sqrt(n: int, r: int) -> bool {
    0 <= r && r * r <= n && n < (r + 1) * (r + 1)
}

/// The square root of `n` rounded down.
pub open spec fn floor_sqrt(n: int) -> int {
    choose|r: int| is_floor_sqrt(n, r)
}

/// The square root of `n` rounded up.
pub open spec fn ceil_sqrt(n: int) -> int {
    let r = floor_sqrt(n);
    if r * r == n {
        r
    } else {
        r + 1
    }
}

/// Discriminant of the quadratic that the `i`-th instance of a ramp solves,
/// scaled to nanoseconds: `(start*d)^2 + 2*i*10^9*(end - start)*d`.
pub open spec fn discriminant(start_rate: int, end_rate: int, duration: int, i: int) -> int {
    (duration * start_rate) * (duration * start_rate) + (2 * NANOS_PER_SEC * i) * (duration
        * end_rate - duration * start_rate)
}

/// Offset in nanoseconds of the `i`-th instance (counted from 1) of a stage.
///
/// At a constant rate the instances are evenly spaced from offset zero. On a
/// ramp the offset is the time at which the expected number of started
/// instances reaches `i`: the root of the quadratic nearer to zero, with a
/// negative discriminant taken as zero. The exact value is rounded down.
pub open spec fn offset_nanos(start_rate: int, end_rate: int, duration: int, i: int) -> int {
    if start_rate == end_rate {
        ((i - 1) * NANOS_PER_SEC) / start_rate
    } else if start_rate < end_rate {
        (floor_sqrt(discriminant(start_rate, end_rate, duration, i)) - duration * start_rate) / (
        end_rate - start_rate)
    } else {
        let disc = discriminant(start_rate, end_rate, duration, i);
        (duration * start_rate - ceil_sqrt(
            if disc < 0 {
                0
            } else {
                disc
            },
        )) / (start_rate - end_rate)
    }
}

/// A number has one rounded-down square root.
pub proof fn lemma_floor_sqrt_unique(n: int, r: int)
    requires
        is_floor_sqrt(n, r),
    ensures
        floor_sqrt(n) == r,
{
    let s = floor_sqrt(n);
    assert(is_floor_sqrt(n, s));
    assert(s == r) by (nonlinear_arith)
        requires
            0 <= r,
            r * r <= n,
            n < (r + 1) * (r + 1),
            0 <= s,
            s * s <= n,
            n < (s + 1) * (s + 1),
    {
        if s < r {
            assert((s + 1) * (s + 1) <= r * r);
        } else if r < s {
            assert((r + 1) * (r + 1) <= s * s);
        }
    }
}

/// Square root of `n`, rounded down.
pub fn isqrt(n: u128) -> (r: u128)
    ensures
        is_floor_sqrt(n as int, r as int),
        r as int == floor_sqrt(n as int),
{
    let mut lo: u128 = 0;
    let mut hi: u128 = 0x1_0000_0000_0000_0000;
    assert(n < hi * hi) by (nonlinear_arith)
        requires
            hi == 0x1_0000_0000_0000_0000,
            n <= 0xFFFF_FFFF_FFFF_FFFF_FFFF_FFFF_FFFF_FFFF,
    ;
    while hi - lo > 1
        invariant
            lo < hi <= 0x1_0000_0000_0000_0000,
            lo * lo <= n,
            n < hi * hi,
        decreases hi - lo,
    {
        let mid: u128 = lo + (hi - lo) / 2;
        assert(mid * mid <= 0xFFFF_FFFF_FFFF_FFFF_FFFF_FFFF_FFFF_FFFF) by (nonlinear_arith)
            requires
                mid <= 0xFFFF_FFFF_FFFF_FFFF,
        ;
        if mid * mid <= n {
            lo = mid;
        } else {
            hi = mid;
        }
    }
    proof {
        lemma_floor_sqrt_unique(n as int, lo as int);
    }
    lo
}

/// Why a schedule could not be built.
#[derive(Clone, Copy, Debug, PartialEq, Eq, Structural)]
pub enum ScheduleError {
    /// A rate times the duration exceeds [`MAX_LOAD`].
    TooLarge,
}

/// What a [`Timeline`] stands for: the stage it was built from, how many
/// instances the stage launches, and which one comes next (counted from 1).
pub struct TimelineView {
    pub start_rate: int,
    pub end_rate: int,
    pub duration: int,
    pub total: int,
    pub cursor: int,
}

/// The arrival schedule of one stage, as a cursor over its offsets.
///
/// It yields the offsets of the stage in order, once; a copy taken before
/// advancing starts over from where the copy was taken.
#[derive(Debug, Clone, Copy)]
pub struct Timeline {
    start_rate: u64,
    end_rate: u64,
    duration: u64,
    total_iterations: u64,
    current_iteration: u64,
}

impl View for Timeline {
    type V = TimelineView;

    closed spec fn view(&self) -> TimelineView {
        TimelineView {
            start_rate: self.start_rate as int,
            end_rate: self.end_rate as int,
            duration: self.duration as int,
            total: self.total_iterations as int,
            cursor: self.current_iteration as int,
        }
    }
}

impl TimelineView {
    /// The stage is within [`MAX_LOAD`], the total is the area under its
    /// ramp, and the cursor is at an instance of the stage or one past the
    /// last.
    pub open spec fn wf(self) -> bool {
        &&& 0 <= self.start_rate <= u64::MAX
        &&& 0 <= self.end_rate <= u64::MAX
        &&& 0 <= self.duration <= u64::MAX
        &&& self.duration * self.start_rate <= MAX_LOAD
        &&& self.duration * self.end_rate <= MAX_LOAD
        &&& self.total == total_count(self.start_rate, self.end_rate, self.duration)
        &&& 1 <= self.cursor <= self.total + 1
    }

    /// Offset in nanoseconds of the `i`-th instance of the stage.
    pub open spec fn offset(self, i: int) -> int {
        offset_nanos(self.start_rate, self.end_rate, self.duration, i)
    }

    /// The offsets still to come, in order.
    pub open spec fn remaining(self) -> Seq<int> {
        Seq::new((self.total + 1 - self.cursor) as nat, |k: int| self.offset(self.cursor + k))
    }

    /// The same stage with the cursor moved to `cursor`.
    pub open spec fn at(self, cursor: int) -> TimelineView {
        TimelineView { cursor, ..self }
    }
}

/// A product of two 64-bit numbers, as a 128-bit number.
fn wide_mul(a: u64, b: u64) -> (r: u128)
    ensures
        r == a * b,
{
    assert(a * b <= 0xFFFF_FFFF_FFFF_FFFF_FFFF_FFFF_FFFF_FFFF) by (nonlinear_arith)
        requires
            a <= 0xFFFF_FFFF_FFFF_FFFF,
            b <= 0xFFFF_FFFF_FFFF_FFFF,
    ;
    (a as u128) * (b as u128)
}

impl Timeline {
    /// Builds the schedule of a stage that ramps from `start_rate` to
    /// `end_rate` instances per second over `duration` nanoseconds, with the
    /// cursor at its first instance.
    ///
    /// The stage is refused exactly when a rate times the duration exceeds
    /// [`MAX_LOAD`].
    pub fn new(start_rate: u64, end_rate: u64, duration: u64) -> (r: Result<Timeline, ScheduleError>)
        ensures
            r is Err <==> (duration * start_rate > MAX_LOAD || duration * end_rate > MAX_LOAD),
            r matches Ok(t) ==> t@.wf() && t@ == (TimelineView {
                start_rate: start_rate as int,
                end_rate: end_rate as int,
                duration: duration as int,
                total: total_count(start_rate as int, end_rate as int, duration as int),
                cursor: 1,
            }),
    {
        let from: u128 = wide_mul(duration, start_rate);
        let to: u128 = wide_mul(duration, end_rate);
        if from > MAX_LOAD as u128 || to > MAX_LOAD as u128 {
            return Err(ScheduleError::TooLarge);
        }
        let total: u128 = if start_rate == end_rate {
            (to + (NANOS_PER_SEC as u128 - 1)) / (NANOS_PER_SEC as u128)
        } else {
            (from + to + (2 * NANOS_PER_SEC as u128 - 1)) / (2 * NANOS_PER_SEC as u128)
        };
        Ok(
            Timeline {
                start_rate,
                end_rate,
                duration,
                total_iterations: total as u64,
                current_iteration: 1,
            },
        )
    }

    /// Number of instances that the stage launches.
    pub fn total_count(&self) -> (n: u64)
        ensures
            n == self@.total,
    {
        self.total_iterations
    }

    /// Yields the offset in nanoseconds of the next instance and moves the
    /// cursor past it, or yields nothing once the stage is exhausted.
    pub fn next(&mut self) -> (r: Option<u64>)
        requires
            old(self)@.wf(),
        ensures
            final(self)@.wf(),
            old(self)@.cursor > old(self)@.total ==> r is None && final(self)@ == old(self)@,
            r is Some <==> old(self)@.remaining().len() > 0,
            r matches Some(nanos) ==> nanos == old(self)@.remaining().first() && final(self)@.remaining()
                == old(self)@.remaining().drop_first(),
            old(self)@.cursor <= old(self)@.total ==> r == Some(
                old(self)@.offset(old(self)@.cursor) as u64,
            ) && old(self)@.offset(old(self)@.cursor) <= u64::MAX && final(self)@ == old(self)@.at(
                old(self)@.cursor + 1,
            ),
    {
        if self.current_iteration > self.total_iterations {
            return None;
        }
        let i: u64 = self.current_iteration;
        let from: u128 = wide_mul(self.duration, self.start_rate);
        let to: u128 = wide_mul(self.duration, self.end_rate);
        let steps: u128 = 2 * (NANOS_PER_SEC as u128) * (i as u128);
        let nanos: u128 = if self.start_rate == self.end_rate {
            assert(self.start_rate != 0) by (nonlinear_arith)
                requires
                    self.duration * self.start_rate >= 1,
            ;
            let num: u128 = (i as u128 - 1) * (NANOS_PER_SEC as u128);
            assert(num / (self.start_rate as u128) <= num) by (nonlinear_arith)
                requires
                    self.start_rate >= 1,
            ;
            num / (self.start_rate as u128)
        } else if self.start_rate < self.end_rate {
            assert(self.duration * self.start_rate <= self.duration * self.end_rate)
                by (nonlinear_arith)
                requires
                    self.start_rate < self.end_rate,
            ;
            let width: u128 = to - from;
            assert(steps * width <= 0x4000_0000_0000_0000_0000_0000_0000_0000) by (nonlinear_arith)
                requires
                    steps <= 0x1_0000_0000_0000_0000,
                    width <= 0x4000_0000_0000_0000,
            ;
            assert(from * from <= 0x1000_0000_0000_0000_0000_0000_0000_0000) by (nonlinear_arith)
                requires
                    from <= 0x4000_0000_0000_0000,
            ;
            let disc: u128 = from * from + steps * width;
            let root: u128 = isqrt(disc);
            assert(root >= from) by (nonlinear_arith)
                requires
                    from * from <= disc,
                    disc < (root + 1) * (root + 1),
            ;
            assert(root < 0x1_0000_0000_0000_0000) by (nonlinear_arith)
                requires
                    root * root <= disc,
                    disc <= 0xFFFF_FFFF_FFFF_FFFF_FFFF_FFFF_FFFF_FFFF,
            ;
            let rise: u128 = (self.end_rate - self.start_rate) as u128;
            let gap: u128 = root - from;
            assert(gap / rise <= gap) by (nonlinear_arith)
                requires
                    rise >= 1,
            ;
            gap / rise
        } else {
            assert(self.duration * self.end_rate <= self.duration * self.start_rate)
                by (nonlinear_arith)
                requires
                    self.end_rate < self.start_rate,
            ;
            let width: u128 = from - to;
            assert(steps * width <= 0x4000_0000_0000_0000_0000_0000_0000_0000) by (nonlinear_arith)
                requires
                    steps <= 0x1_0000_0000_0000_0000,
                    width <= 0x4000_0000_0000_0000,
            ;
            assert(from * from <= 0x1000_0000_0000_0000_0000_0000_0000_0000) by (nonlinear_arith)
                requires
                    from <= 0x4000_0000_0000_0000,
            ;
            assert(steps * (to - from) == -(steps * width)) by (nonlinear_arith)
                requires
                    width == from - to,
            ;
            let fall: u128 = (self.start_rate - self.end_rate) as u128;
            let top: u128 = if steps * width >= from * from {
                proof {
                    lemma_floor_sqrt_unique(0, 0);
                }
                0
            } else {
                let disc: u128 = from * from - steps * width;
                let root: u128 = isqrt(disc);
                assert(root <= from) by (nonlinear_arith)
                    requires
                        root * root <= disc,
                        disc <= from * from,
                ;
                if root * root == disc {
                    root
                } else {
                    root + 1
                }
            };
            assert(top <= from) by (nonlinear_arith)
                requires
                    top == 0 || top * top <= from * from || (top >= 1 && (top - 1) * (top - 1)
                        < from * from),
            ;
            let gap: u128 = from - top;
            assert(gap / fall <= gap) by (nonlinear_arith)
                requires
                    fall >= 1,
            ;
            gap / fall
        };
        self.current_iteration = i + 1;
        assert(self@.remaining() =~= old(self)@.remaining().drop_first());
        Some(nanos as u64)
    }
}

} // verus!
