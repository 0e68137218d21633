//! Directions from headings, in fixed point: a unit vector is scaled by
//! `ONE` and an angle is in microradians.

use crate::actor::{abs, tdiv, Vector2, TURN};
use vstd::prelude::*;

verus! {

/// The fixed-point one: unit vectors have length `ONE`.
pub const ONE: i64 = 1_000_000;

/// Half a turn (pi) in microradians.
pub const HALF_TURN: i64 = 3_141_593;

/// A quarter turn (pi / 2) in microradians.
pub const QUARTER_TURN: i64 = 1_570_796;

/// Bound on `x * x / ONE` for `|x| <= QUARTER_TURN`.
pub const SQ_MAX: i64 = 2_467_401;

/// One nested factor of a Taylor series in Horner form: `1 - x2 * t / k`.
pub open spec fn horner(x2: int, t: int, k: int) -> int {
    ONE - (x2 * t) / (k * ONE)
}

/// The square of `x`, scaled back to fixed point.
pub open spec fn sq(x: int) -> int {
    (x * x) / (ONE as int)
}

/// Sine of `x` (|x| <= pi / 2): the series up to the ninth power.
pub open spec fn sin_small(x: int) -> int {
    let x2 = sq(x);
    let t = horner(x2, horner(x2, horner(x2, horner(x2, ONE as int, 72), 42), 20), 6);
    tdiv(x * t, ONE as int)
}

/// The sine of `x` (|x| <= pi / 2), kept within `[-ONE, ONE]`.
pub open spec fn unit_sin(x: int) -> int {
    let v = sin_small(x);
    if v > ONE { ONE as int } else if v < -ONE { -ONE } else { v }
}

/// `r` is the square root of `n`, rounded down.
pub open spec fn is_floor_sqrt(n: int, r: int) -> bool {
    r >= 0 && r * r <= n && n < (r + 1) * (r + 1)
}

pub open spec fn floor_sqrt(n: int) -> int {
    choose|r: int| is_floor_sqrt(n, r)
}

/// The cosine of `x` (|x| <= pi / 2) from the sine: `sqrt(1 - sin^2)`,
/// rounded down, so that the pair has unit length up to rounding.
pub open spec fn unit_cos(x: int) -> int {
    floor_sqrt(ONE * ONE - unit_sin(x) * unit_sin(x))
}

/// An angle in `[0, TURN)` brought into `(-pi, pi]`.
pub open spec fn centred(a: int) -> int {
    if a > HALF_TURN { a - TURN } else { a }
}

/// The unit vector for heading `a` in `[0, TURN)`: `(sin a, cos a)`, with
/// the angle first folded into `[-pi/2, pi/2]`.
pub open spec fn direction(a: int) -> Vector2 {
    let g = centred(a);
    if g > QUARTER_TURN {
        Vector2 { x: unit_sin(HALF_TURN - g) as i64, y: -unit_cos(HALF_TURN - g) as i64 }
    } else if g < -QUARTER_TURN {
        Vector2 { x: unit_sin(-HALF_TURN - g) as i64, y: -unit_cos(-HALF_TURN - g) as i64 }
    } else {
        Vector2 { x: unit_sin(g) as i64, y: unit_cos(g) as i64 }
    }
}

fn horner_exec(x2: i64, t: i64, k: i64) -> (r: i64)
    requires
        0 <= x2 <= SQ_MAX,
        0 <= t <= ONE,
        2 <= k <= 100,
    ensures
        r == horner(x2 as int, t as int, k as int),
        0 <= ONE - r <= (SQ_MAX as int) / (k as int),
{
    let ghost p = x2 as int * t as int;
    assert(0 <= p <= SQ_MAX * ONE) by (nonlinear_arith)
        requires 0 <= x2 <= SQ_MAX, 0 <= t <= ONE, p == x2 as int * t as int;
    let d = k * ONE;
    let q = (x2 * t) / d;
    proof { lemma_quotient_bound(p, k as int); }
    ONE - q
}

proof fn lemma_quotient_bound(p: int, k: int)
    requires
        0 <= p <= SQ_MAX * ONE,
        2 <= k,
    ensures
        0 <= p / (k * ONE) <= (SQ_MAX as int) / k,
{
    let d = k * ONE;
    assert(d > 0) by (nonlinear_arith) requires k >= 2, d == k * ONE;
    vstd::arithmetic::div_mod::lemma_div_is_ordered(p, SQ_MAX * ONE, d);
    assert((SQ_MAX * ONE) / (k * ONE) == (SQ_MAX as int) / k) by {
        vstd::arithmetic::div_mod::lemma_div_denominator(SQ_MAX * ONE, ONE as int, k);
        vstd::arithmetic::div_mod::lemma_div_by_multiple(SQ_MAX as int, ONE as int);
        assert(k * ONE == ONE * k) by (nonlinear_arith);
    }
    vstd::arithmetic::div_mod::lemma_div_pos_is_pos(p, d);
}

proof fn lemma_sq_bound(x: int)
    requires
        abs(x) <= QUARTER_TURN,
    ensures
        0 <= sq(x) <= SQ_MAX,
{
    assert(0 <= x * x <= QUARTER_TURN * QUARTER_TURN) by (nonlinear_arith)
        requires -QUARTER_TURN <= x <= QUARTER_TURN;
}

fn sq_exec(x: i64) -> (r: i64)
    requires
        abs(x as int) <= QUARTER_TURN,
    ensures
        r == sq(x as int),
        0 <= r <= SQ_MAX,
{
    proof { lemma_sq_bound(x as int); }
    assert(0 <= x * x <= QUARTER_TURN * QUARTER_TURN) by (nonlinear_arith)
        requires -QUARTER_TURN <= x <= QUARTER_TURN;
    (x * x) / ONE
}

/// The series factor of the sine; it stays within `[0, ONE]`.
fn sin_factor(x2: i64) -> (t: i64)
    requires
        0 <= x2 <= SQ_MAX,
    ensures
        t == horner(x2 as int, horner(x2 as int, horner(x2 as int, horner(x2 as int, ONE as int, 72), 42), 20), 6),
        0 <= t <= ONE,
{
    let t = horner_exec(x2, ONE, 72);
    let t = horner_exec(x2, t, 42);
    let t = horner_exec(x2, t, 20);
    horner_exec(x2, t, 6)
}

pub fn sin_small_exec(x: i64) -> (r: i64)
    requires
        abs(x as int) <= QUARTER_TURN,
    ensures
        r == sin_small(x as int),
        abs(r as int) <= QUARTER_TURN,
{
    let x2 = sq_exec(x);
    let t = sin_factor(x2);
    assert(abs(x * t) <= QUARTER_TURN * ONE) by (nonlinear_arith)
        requires abs(x as int) <= QUARTER_TURN, 0 <= t <= ONE;
    if x >= 0 {
        assert(x * t >= 0) by (nonlinear_arith) requires x >= 0, t >= 0;
        (x * t) / ONE
    } else {
        assert(x * t <= 0) by (nonlinear_arith) requires x < 0, t >= 0;
        -((-(x * t)) / ONE)
    }
}

pub proof fn lemma_floor_sqrt_unique(n: int, r: int)
    requires
        is_floor_sqrt(n, r),
    ensures
        floor_sqrt(n) == r,
{
    assert(exists|q: int| #[trigger] is_floor_sqrt(n, q));
    let q = floor_sqrt(n);
    if q < r {
        crate::actor::lemma_square_monotone(q + 1, r);
    } else if r < q {
        crate::actor::lemma_square_monotone(r + 1, q);
    }
}

/// The square root of `n`, rounded down.
fn floor_sqrt_exec(n: i64) -> (r: i64)
    requires
        0 <= n <= ONE * ONE,
    ensures
        r == floor_sqrt(n as int),
        is_floor_sqrt(n as int, r as int),
        0 <= r <= ONE,
{
    let s = crate::actor::ceil_sqrt_exec(n as i128);
    assert(s * s <= 0x400_0000_0000 * 0x400_0000_0000) by (nonlinear_arith) requires 0 <= s <= 0x200_0000_0000;
    let r: i128 = if s * s == n as i128 { s } else { s - 1 };
    proof {
        if s * s != n {
            assert(s > 0);
            assert((r + 1) * (r + 1) == s * s);
        } else {
            assert((s + 1) * (s + 1) > s * s) by (nonlinear_arith) requires s >= 0;
        }
        lemma_floor_sqrt_unique(n as int, r as int);
        if r > ONE {
            crate::actor::lemma_square_strict(ONE as int, r as int);
        }
    }
    r as i64
}

/// The sine and cosine of `x` (|x| <= pi / 2), as `unit_sin` and `unit_cos`.
pub fn unit_pair(x: i64) -> (r: (i64, i64))
    requires
        abs(x as int) <= QUARTER_TURN,
    ensures
        r.0 == unit_sin(x as int),
        r.1 == unit_cos(x as int),
        abs(r.0 as int) <= ONE,
        0 <= r.1 <= ONE,
{
    let v = sin_small_exec(x);
    let s = if v > ONE { ONE } else if v < -ONE { -ONE } else { v };
    assert(0 <= s * s <= ONE * ONE) by (nonlinear_arith) requires -ONE <= s <= ONE;
    let c = floor_sqrt_exec(ONE * ONE - s * s);
    (s, c)
}

/// Sine and cosine from `unit_pair` have unit length up to rounding: the
/// sum of their squares lies within `2 * ONE + 1` below `ONE * ONE`.
pub proof fn lemma_unit_pair(x: int)
    requires
        abs(x) <= QUARTER_TURN,
    ensures
        -ONE <= unit_sin(x) <= ONE,
        0 <= unit_cos(x) <= ONE,
        ONE * ONE - 2 * ONE - 1 < unit_sin(x) * unit_sin(x) + unit_cos(x) * unit_cos(x) <= ONE * ONE,
{
    let s = unit_sin(x);
    assert(0 <= s * s <= ONE * ONE) by (nonlinear_arith) requires -ONE <= s <= ONE;
    let n = ONE * ONE - s * s;
    lemma_floor_sqrt_exists(n);
    let c = floor_sqrt(n);
    assert(is_floor_sqrt(n, c));
    if c > ONE {
        crate::actor::lemma_square_strict(ONE as int, c);
    }
    assert((c + 1) * (c + 1) == c * c + 2 * c + 1) by (nonlinear_arith);
}

proof fn lemma_floor_sqrt_exists(n: int)
    requires
        0 <= n,
    ensures
        exists|r: int| #[trigger] is_floor_sqrt(n, r),
{
    crate::actor::lemma_ceil_sqrt_exists(n);
    let s = choose|s: int| #[trigger] crate::actor::is_ceil_sqrt(n, s);
    if s * s == n {
        assert((s + 1) * (s + 1) > s * s) by (nonlinear_arith) requires s >= 0;
        assert(is_floor_sqrt(n, s));
    } else {
        assert(s != 0) by {
            if s == 0 {
                assert(s * s == 0) by (nonlinear_arith) requires s == 0;
            }
        }
        assert(is_floor_sqrt(n, s - 1));
    }
}

/// The heading's unit vector has unit length up to rounding.
pub proof fn lemma_direction_unit(a: int)
    requires
        0 <= a < TURN,
    ensures
        ONE * ONE - 2 * ONE - 1 < direction(a).x * direction(a).x + direction(a).y * direction(a).y <= ONE * ONE,
{
    let g = centred(a);
    let h = if g > QUARTER_TURN { HALF_TURN - g } else if g < -QUARTER_TURN { -HALF_TURN - g } else { g };
    lemma_small_bounds(h);
    lemma_unit_pair(h);
    let c = unit_cos(h);
    assert((-c) * (-c) == c * c) by (nonlinear_arith);
}

/// What `vec_from_angle` ensures of its result's size.
pub proof fn lemma_direction_bounds(a: int)
    requires
        0 <= a < TURN,
    ensures
        abs(direction(a).x as int) <= ONE,
        abs(direction(a).y as int) <= ONE,
{
    let g = centred(a);
    let h = if g > QUARTER_TURN { HALF_TURN - g } else if g < -QUARTER_TURN { -HALF_TURN - g } else { g };
    lemma_small_bounds(h);
    lemma_unit_pair(h);
}

/// The sine series stays within its range on `[-pi/2, pi/2]`.
pub proof fn lemma_small_bounds(x: int)
    ensures
        abs(x) <= QUARTER_TURN ==> abs(sin_small(x)) <= QUARTER_TURN,
{
    if abs(x) <= QUARTER_TURN {
        lemma_sq_bound(x);
        let x2 = sq(x);
        lemma_horner_bounds(x2, ONE as int, 72);
        let t1 = horner(x2, ONE as int, 72);
        lemma_horner_bounds(x2, t1, 42);
        let t2 = horner(x2, t1, 42);
        lemma_horner_bounds(x2, t2, 20);
        let t3 = horner(x2, t2, 20);
        lemma_horner_bounds(x2, t3, 6);
        let t = horner(x2, t3, 6);
        assert(abs(x * t) <= QUARTER_TURN * ONE) by (nonlinear_arith)
            requires abs(x) <= QUARTER_TURN, 0 <= t <= ONE;
        assert(abs(tdiv(x * t, ONE as int)) <= QUARTER_TURN) by (nonlinear_arith)
            requires abs(x * t) <= QUARTER_TURN * ONE;
    }
}

proof fn lemma_horner_bounds(x2: int, t: int, k: int)
    requires
        0 <= x2 <= SQ_MAX,
        0 <= t <= ONE,
        2 <= k <= 100,
    ensures
        0 <= ONE - horner(x2, t, k) <= (SQ_MAX as int) / k,
{
    assert(0 <= x2 * t <= SQ_MAX * ONE) by (nonlinear_arith)
        requires 0 <= x2 <= SQ_MAX, 0 <= t <= ONE;
    lemma_quotient_bound(x2 * t, k);
}

/// The unit vector `(sin a, cos a)` (scaled by `ONE`) for a heading `a` in
/// `[0, TURN)`; its length is `ONE` up to rounding (`lemma_direction_unit`).
pub fn vec_from_angle(a: i64) -> (r: Vector2)
    requires
        0 <= a < TURN,
    ensures
        r == direction(a as int),
        abs(r.x as int) <= ONE,
        abs(r.y as int) <= ONE,
{
    let g = if a > HALF_TURN { a - TURN } else { a };
    if g > QUARTER_TURN {
        let (s, c) = unit_pair(HALF_TURN - g);
        Vector2 { x: s, y: -c }
    } else if g < -QUARTER_TURN {
        let (s, c) = unit_pair(-HALF_TURN - g);
        Vector2 { x: s, y: -c }
    } else {
        let (s, c) = unit_pair(g);
        Vector2 { x: s, y: c }
    }
}

} // verus!
