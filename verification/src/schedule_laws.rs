//! What holds of every arrival schedule.
use crate::timeline::{
    ceil_div, ceil_sqrt, discriminant, floor_sqrt, is_floor_sqrt, lemma_floor_sqrt_unique,
    offset_nanos, total_count, TimelineView, NANOS_PER_SEC,
};
use vstd::arithmetic::div_mod::{
    lemma_div_is_ordered, lemma_div_multiples_vanish, lemma_div_plus_one, lemma_div_pos_is_pos,
    lemma_fundamental_div_mod, lemma_mod_bound,
};
use vstd::prelude::*;

verus! {

/// Every number from zero up has a rounded-down square root.
pub proof fn lemma_floor_sqrt_exists(n: int)
    requires
        0 <= n,
    ensures
        is_floor_sqrt(n, floor_sqrt(n)),
    decreases n,
{
    if n == 0 {
        assert(is_floor_sqrt(0, 0));
    } else {
        lemma_floor_sqrt_exists(n - 1);
        let r = floor_sqrt(n - 1);
        if (r + 1) * (r + 1) <= n {
            assert(n < (r + 2) * (r + 2)) by (nonlinear_arith)
                requires
                    0 <= r,
                    n - 1 < (r + 1) * (r + 1),
            ;
            assert(is_floor_sqrt(n, r + 1));
        } else {
            assert(is_floor_sqrt(n, r));
        }
    }
}

/// The rounded-down square root of a square is its base.
pub proof fn lemma_floor_sqrt_of_square(q: int)
    requires
        0 <= q,
    ensures
        floor_sqrt(q * q) == q,
        ceil_sqrt(q * q) == q,
{
    assert(q * q < (q + 1) * (q + 1)) by (nonlinear_arith)
        requires
            0 <= q,
    ;
    lemma_floor_sqrt_unique(q * q, q);
}

/// The rounded-down square root grows with its argument.
pub proof fn lemma_floor_sqrt_monotone(n: int, m: int)
    requires
        0 <= n <= m,
    ensures
        0 <= floor_sqrt(n) <= floor_sqrt(m),
{
    lemma_floor_sqrt_exists(n);
    lemma_floor_sqrt_exists(m);
    let r = floor_sqrt(n);
    let s = floor_sqrt(m);
    assert(r <= s) by (nonlinear_arith)
        requires
            0 <= r,
            0 <= s,
            r * r <= n,
            n <= m,
            m < (s + 1) * (s + 1),
    ;
}

/// The rounded-up square root of `n` is the least number whose square
/// reaches `n`.
pub proof fn lemma_ceil_sqrt_is_least(n: int)
    requires
        0 <= n,
    ensures
        0 <= ceil_sqrt(n),
        n <= ceil_sqrt(n) * ceil_sqrt(n),
        ceil_sqrt(n) == 0 || (ceil_sqrt(n) - 1) * (ceil_sqrt(n) - 1) < n,
{
    lemma_floor_sqrt_exists(n);
    let r = floor_sqrt(n);
    if r * r == n {
        assert(r == 0 || (r - 1) * (r - 1) < r * r) by (nonlinear_arith)
            requires
                0 <= r,
        ;
    } else {
        assert((r + 1 - 1) * (r + 1 - 1) == r * r);
    }
}

/// The rounded-up square root grows with its argument.
pub proof fn lemma_ceil_sqrt_monotone(n: int, m: int)
    requires
        0 <= n <= m,
    ensures
        0 <= ceil_sqrt(n) <= ceil_sqrt(m),
{
    lemma_ceil_sqrt_is_least(n);
    lemma_ceil_sqrt_is_least(m);
    let c = ceil_sqrt(n);
    let e = ceil_sqrt(m);
    assert(c <= e) by (nonlinear_arith)
        requires
            0 <= c,
            0 <= e,
            c == 0 || (c - 1) * (c - 1) < n,
            n <= m,
            m <= e * e,
    ;
}

/// The number of instances of a stage is the area of the trapezoid under its
/// ramp, `duration * (start_rate + end_rate) / 2` seconds, rounded up: the
/// least count whose double, in nanoseconds, reaches
/// `duration * (start_rate + end_rate)`. A constant rate is no exception.
pub proof fn law_total_is_trapezoid(start_rate: int, end_rate: int, duration: int)
    requires
        0 <= start_rate,
        0 <= end_rate,
        0 <= duration,
    ensures
        total_count(start_rate, end_rate, duration) == ceil_div(
            duration * (start_rate + end_rate),
            2 * NANOS_PER_SEC,
        ),
        0 <= total_count(start_rate, end_rate, duration),
        2 * NANOS_PER_SEC * (total_count(start_rate, end_rate, duration) - 1) < duration * (
        start_rate + end_rate) <= 2 * NANOS_PER_SEC * total_count(start_rate, end_rate, duration),
{
    assert(duration * (start_rate + end_rate) == duration * start_rate + duration * end_rate)
        by (nonlinear_arith);
    assert(0 <= duration * start_rate && 0 <= duration * end_rate) by (nonlinear_arith)
        requires
            0 <= start_rate,
            0 <= end_rate,
            0 <= duration,
    ;
}

/// At a constant rate `rate` over `duration` nanoseconds the stage launches
/// `rate * duration` instances, rounded up, and the `k`-th of them at
/// `(k - 1) / rate` seconds, rounded down to a nanosecond.
pub proof fn law_constant_rate(rate: int, duration: int, k: int)
    requires
        0 < rate,
        0 <= duration,
        1 <= k,
    ensures
        total_count(rate, rate, duration) == ceil_div(duration * rate, NANOS_PER_SEC as int),
        offset_nanos(rate, rate, duration, 1) == 0,
        rate * offset_nanos(rate, rate, duration, k) <= (k - 1) * NANOS_PER_SEC < rate * (
        offset_nanos(rate, rate, duration, k) + 1),
{
    let x = (k - 1) * NANOS_PER_SEC;
    lemma_fundamental_div_mod(x, rate);
    lemma_mod_bound(x, rate);
    assert(rate * (x / rate + 1) == rate * (x / rate) + rate) by (nonlinear_arith);
}

/// No stage at rates zero to zero launches anything.
pub proof fn law_idle_stage_is_empty(duration: int)
    requires
        0 <= duration,
    ensures
        total_count(0, 0, duration) == 0,
{
    assert(duration * 0 == 0);
}

/// The offsets of a stage never decrease from one instance to the next.
pub proof fn law_offsets_nondecreasing(
    start_rate: int,
    end_rate: int,
    duration: int,
    i: int,
    j: int,
)
    requires
        0 <= start_rate,
        0 <= end_rate,
        0 <= duration,
        start_rate > 0 || end_rate > 0,
        1 <= i <= j,
    ensures
        offset_nanos(start_rate, end_rate, duration, i) <= offset_nanos(
            start_rate,
            end_rate,
            duration,
            j,
        ),
{
    let p = duration * start_rate;
    let q = duration * end_rate;
    let di = discriminant(start_rate, end_rate, duration, i);
    let dj = discriminant(start_rate, end_rate, duration, j);
    if start_rate == end_rate {
        lemma_div_is_ordered((i - 1) * NANOS_PER_SEC, (j - 1) * NANOS_PER_SEC, start_rate);
    } else if start_rate < end_rate {
        assert(0 <= di <= dj) by (nonlinear_arith)
            requires
                di == p * p + (2 * NANOS_PER_SEC * i) * (q - p),
                dj == p * p + (2 * NANOS_PER_SEC * j) * (q - p),
                p == duration * start_rate,
                q == duration * end_rate,
                0 <= duration,
                0 <= start_rate < end_rate,
                1 <= i <= j,
        ;
        lemma_floor_sqrt_monotone(di, dj);
        lemma_div_is_ordered(floor_sqrt(di) - p, floor_sqrt(dj) - p, end_rate - start_rate);
    } else {
        assert(dj <= di) by (nonlinear_arith)
            requires
                di == p * p + (2 * NANOS_PER_SEC * i) * (q - p),
                dj == p * p + (2 * NANOS_PER_SEC * j) * (q - p),
                p == duration * start_rate,
                q == duration * end_rate,
                0 <= duration,
                0 <= end_rate < start_rate,
                1 <= i <= j,
        ;
        let ci = if di < 0 {
            0
        } else {
            di
        };
        let cj = if dj < 0 {
            0
        } else {
            dj
        };
        lemma_ceil_sqrt_monotone(cj, ci);
        lemma_div_is_ordered(p - ceil_sqrt(ci), p - ceil_sqrt(cj), start_rate - end_rate);
    }
}

/// At a constant rate of at most one instance per nanosecond, each instance
/// is launched strictly later than the one before it.
pub proof fn law_constant_offsets_increase(rate: int, duration: int, i: int)
    requires
        0 < rate <= NANOS_PER_SEC,
        1 <= i,
    ensures
        offset_nanos(rate, rate, duration, i) < offset_nanos(rate, rate, duration, i + 1),
{
    let x = (i - 1) * NANOS_PER_SEC;
    lemma_div_plus_one(x, rate);
    lemma_div_is_ordered(rate + x, i * NANOS_PER_SEC, rate);
}

/// On a ramp between rates of at most one instance per nanosecond, an
/// instance that lies under the ramp, `2 * (i + 1) <= duration * (start_rate
/// + end_rate)` in seconds, is launched strictly later than the one before
/// it.
pub proof fn law_ramp_offsets_increase(start_rate: int, end_rate: int, duration: int, i: int)
    requires
        0 <= start_rate <= NANOS_PER_SEC,
        0 <= end_rate <= NANOS_PER_SEC,
        start_rate != end_rate,
        0 <= duration,
        1 <= i,
        2 * NANOS_PER_SEC * (i + 1) <= duration * start_rate + duration * end_rate,
    ensures
        offset_nanos(start_rate, end_rate, duration, i) < offset_nanos(
            start_rate,
            end_rate,
            duration,
            i + 1,
        ),
{
    let n = NANOS_PER_SEC as int;
    let p = duration * start_rate;
    let q = duration * end_rate;
    let m = n * duration;
    let di = discriminant(start_rate, end_rate, duration, i);
    let dj = discriminant(start_rate, end_rate, duration, i + 1);
    assert(1 <= duration && 0 <= p <= m && 0 <= q <= m && n <= m) by (nonlinear_arith)
        requires
            p == duration * start_rate,
            q == duration * end_rate,
            m == n * duration,
            0 <= start_rate <= n,
            0 <= end_rate <= n,
            0 <= duration,
            1 <= i,
            n > 0,
            2 * n * (i + 1) <= p + q,
    ;
    if start_rate < end_rate {
        let r = end_rate - start_rate;
        assert(p <= q) by (nonlinear_arith)
            requires
                p == duration * start_rate,
                q == duration * end_rate,
                0 <= duration,
                start_rate < end_rate,
        ;
        assert(dj == di + 2 * r * m && 0 <= di && dj <= q * q && q * q <= m * m) by (nonlinear_arith)
            requires
                di == p * p + (2 * n * i) * (q - p),
                dj == p * p + (2 * n * (i + 1)) * (q - p),
                2 * n * (i + 1) <= p + q,
                p == duration * start_rate,
                q == duration * end_rate,
                m == n * duration,
                r == end_rate - start_rate,
                0 <= p <= q,
                q <= m,
                r > 0,
                1 <= i,
                n > 0,
        ;
        lemma_floor_sqrt_exists(di);
        lemma_floor_sqrt_exists(dj);
        let s = floor_sqrt(di);
        let t = floor_sqrt(dj);
        assert(2 * s + r <= 2 * m) by (nonlinear_arith)
            requires
                0 <= s,
                s * s <= m * m - 2 * r * m,
                1 <= r <= m,
        ;
        assert((s + r) * (s + r) <= dj) by (nonlinear_arith)
            requires
                0 <= s,
                s * s <= di,
                dj == di + 2 * r * m,
                2 * s + r <= 2 * m,
                1 <= r,
        ;
        assert(s + r <= t) by (nonlinear_arith)
            requires
                0 <= s,
                0 <= t,
                1 <= r,
                (s + r) * (s + r) <= dj,
                dj < (t + 1) * (t + 1),
        ;
        lemma_div_plus_one(s - p, r);
        lemma_div_is_ordered(r + (s - p), t - p, r);
    } else {
        let f = start_rate - end_rate;
        assert(q <= p) by (nonlinear_arith)
            requires
                p == duration * start_rate,
                q == duration * end_rate,
                0 <= duration,
                end_rate < start_rate,
        ;
        assert(dj == di - 2 * f * m && di <= p * p && 0 <= q * q <= dj) by (nonlinear_arith)
            requires
                di == p * p + (2 * n * i) * (q - p),
                dj == p * p + (2 * n * (i + 1)) * (q - p),
                2 * n * (i + 1) <= p + q,
                p == duration * start_rate,
                q == duration * end_rate,
                m == n * duration,
                f == start_rate - end_rate,
                0 <= q <= p,
                f > 0,
                1 <= i,
                n > 0,
        ;
        assert(0 <= 2 * f * m) by (nonlinear_arith)
            requires
                0 < f,
                0 <= m,
        ;
        lemma_ceil_sqrt_is_least(di);
        lemma_ceil_sqrt_is_least(dj);
        lemma_ceil_sqrt_monotone(di, p * p);
        lemma_floor_sqrt_of_square(p);
        let c = ceil_sqrt(di);
        let e = ceil_sqrt(dj);
        assert(f <= c) by (nonlinear_arith)
            requires
                0 <= c,
                di <= c * c,
                2 * f * m <= di,
                1 <= f <= m,
        ;
        assert(dj <= (c - f) * (c - f)) by (nonlinear_arith)
            requires
                di <= c * c,
                dj == di - 2 * f * m,
                f <= c <= m,
                1 <= f,
        ;
        assert(e <= c - f) by (nonlinear_arith)
            requires
                0 <= e,
                0 <= c - f,
                e == 0 || (e - 1) * (e - 1) < dj,
                dj <= (c - f) * (c - f),
        ;
        lemma_div_plus_one(p - c, f);
        lemma_div_is_ordered(f + (p - c), p - e, f);
    }
}

/// An instance that lies under the ramp, `2 * i <= duration * (start_rate +
/// end_rate)` in seconds, is launched within the stage: its offset is at
/// most the duration. At a constant rate this holds of every instance of
/// the stage.
pub proof fn law_offset_within_duration(start_rate: int, end_rate: int, duration: int, i: int)
    requires
        0 <= start_rate,
        0 <= end_rate,
        0 <= duration,
        start_rate > 0 || end_rate > 0,
        1 <= i,
        2 * NANOS_PER_SEC * i <= duration * start_rate + duration * end_rate || (start_rate
            == end_rate && i <= total_count(start_rate, end_rate, duration)),
    ensures
        0 <= offset_nanos(start_rate, end_rate, duration, i) <= duration,
{
    let p = duration * start_rate;
    let q = duration * end_rate;
    let di = discriminant(start_rate, end_rate, duration, i);
    if start_rate == end_rate {
        let x = (i - 1) * NANOS_PER_SEC;
        assert(q == p);
        let n = NANOS_PER_SEC as int;
        if 2 * NANOS_PER_SEC * i <= p + q {
            assert(x <= p) by (nonlinear_arith)
                requires
                    x == (i - 1) * n,
                    2 * n * i <= p + q,
                    q == p,
                    n > 0,
            ;
        } else {
            let t = total_count(start_rate, end_rate, duration);
            assert(t == (q + n - 1) / n);
            assert(x <= p) by (nonlinear_arith)
                requires
                    x == (i - 1) * n,
                    t == (q + n - 1) / n,
                    i <= t,
                    q == p,
                    n > 0,
            ;
        }
        assert(x <= start_rate * duration) by (nonlinear_arith)
            requires
                x == (i - 1) * NANOS_PER_SEC,
                x <= duration * start_rate,
        ;
        lemma_div_is_ordered(x, start_rate * duration, start_rate);
        lemma_div_multiples_vanish(duration, start_rate);
        lemma_div_pos_is_pos(x, start_rate);
    } else if start_rate < end_rate {
        assert(p * p <= di <= q * q && 0 <= p <= q) by (nonlinear_arith)
            requires
                di == p * p + (2 * NANOS_PER_SEC * i) * (q - p),
                2 * NANOS_PER_SEC * i <= p + q,
                p == duration * start_rate,
                q == duration * end_rate,
                0 <= duration,
                0 <= start_rate < end_rate,
                1 <= i,
        ;
        assert(0 <= p * p) by (nonlinear_arith);
        lemma_floor_sqrt_monotone(p * p, di);
        lemma_floor_sqrt_monotone(di, q * q);
        lemma_floor_sqrt_of_square(p);
        lemma_floor_sqrt_of_square(q);
        let rise = end_rate - start_rate;
        assert(q - p == rise * duration) by (nonlinear_arith)
            requires
                p == duration * start_rate,
                q == duration * end_rate,
                rise == end_rate - start_rate,
        ;
        lemma_div_is_ordered(floor_sqrt(di) - p, rise * duration, rise);
        lemma_div_multiples_vanish(duration, rise);
        lemma_div_pos_is_pos(floor_sqrt(di) - p, rise);
    } else {
        assert(q * q <= di <= p * p && 0 <= q <= p) by (nonlinear_arith)
            requires
                di == p * p + (2 * NANOS_PER_SEC * i) * (q - p),
                2 * NANOS_PER_SEC * i <= p + q,
                p == duration * start_rate,
                q == duration * end_rate,
                0 <= duration,
                0 <= end_rate < start_rate,
                1 <= i,
        ;
        assert(0 <= q * q) by (nonlinear_arith);
        lemma_ceil_sqrt_monotone(q * q, di);
        lemma_ceil_sqrt_monotone(di, p * p);
        lemma_floor_sqrt_of_square(p);
        lemma_floor_sqrt_of_square(q);
        let fall = start_rate - end_rate;
        assert(p - q == fall * duration) by (nonlinear_arith)
            requires
                p == duration * start_rate,
                q == duration * end_rate,
                fall == start_rate - end_rate,
        ;
        lemma_div_is_ordered(p - ceil_sqrt(di), fall * duration, fall);
        lemma_div_multiples_vanish(duration, fall);
        lemma_div_pos_is_pos(p - ceil_sqrt(di), fall);
    }
}

/// A schedule is determined by its stage: two schedules of the same stage,
/// at the same place, are the same and have the same offsets still to come.
pub proof fn law_same_stage_same_schedule(x: TimelineView, y: TimelineView)
    requires
        x.wf(),
        y.wf(),
        x.start_rate == y.start_rate,
        x.end_rate == y.end_rate,
        x.duration == y.duration,
        x.cursor == y.cursor,
    ensures
        x == y,
        x.remaining() == y.remaining(),
{
}

} // verus!
