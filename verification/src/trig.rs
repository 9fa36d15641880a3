//! Sine and cosine of angles given in millionths of a degree.
//!
//! Results are counted in thousand-millionths. An angle is first folded into
//! the first quadrant, which is exact in degrees, and the sine there is the
//! alternating power series up to the thirteenth power, evaluated from the
//! innermost factor outwards.

use vstd::prelude::*;
use vstd::arithmetic::div_mod::{lemma_div_is_ordered, lemma_div_is_ordered_by_denominator};
use crate::fixed::abs_int;

verus! {

/// One whole, counted in thousand-millionths: the scale of sines and cosines.
pub const NANO: i64 = 1_000_000_000;

/// A right angle, in millionths of a degree.
pub const QUARTER_TURN: i64 = 90_000_000;

/// A straight angle, in millionths of a degree.
pub const HALF_TURN: i64 = 180_000_000;

/// A full turn, in millionths of a degree.
pub const FULL_TURN: i64 = 360_000_000;

/// The radians in one degree, counted in million-millionths.
pub const RADIANS_PER_DEGREE: i64 = 17_453_292_520;

/// Number of factors of the series that are evaluated.
pub const SERIES_TERMS: i64 = 6;

/// A first-quadrant angle in thousand-millionths of a radian.
pub open spec fn quadrant_radians(q: int) -> int {
    q * RADIANS_PER_DEGREE as int / NANO as int
}

/// The square of `x`, both counted in thousand-millionths.
pub open spec fn squared(x: int) -> int {
    x * x / NANO as int
}

/// The divisor that separates term `k` of the sine series from term `k + 1`.
pub open spec fn series_divisor(k: int) -> int {
    (2 * k + 2) * (2 * k + 3)
}

/// The nested factor of the sine series from term `k` inwards, for the squared
/// argument `z`: `1 - z / d(k) * (1 - z / d(k + 1) * (...))`.
pub open spec fn series_factor(z: int, k: int) -> int
    decreases SERIES_TERMS - k,
{
    if k >= SERIES_TERMS {
        NANO as int
    } else {
        NANO - z * series_factor(z, k + 1) / (series_divisor(k) * NANO)
    }
}

/// The sine of a first-quadrant angle `q`, never more than one.
#[verifier::opaque]
pub open spec fn sin_quadrant(q: int) -> int {
    let x = quadrant_radians(q);
    let r = x * series_factor(squared(x), 0) / NANO as int;
    if r > NANO {
        NANO as int
    } else {
        r
    }
}

/// The sine of an angle already reduced to one turn.
pub open spec fn sin_reduced(m: int) -> int {
    if m <= QUARTER_TURN {
        sin_quadrant(m)
    } else if m <= HALF_TURN {
        sin_quadrant(HALF_TURN - m)
    } else if m <= HALF_TURN + QUARTER_TURN {
        -sin_quadrant(m - HALF_TURN)
    } else {
        -sin_quadrant(FULL_TURN - m)
    }
}

/// The sine of any angle.
pub open spec fn sin_spec(angle: int) -> int {
    sin_reduced(angle % FULL_TURN as int)
}

/// The cosine of any angle: the sine a quarter turn further on.
pub open spec fn cos_spec(angle: int) -> int {
    sin_spec(angle + QUARTER_TURN)
}

/// The first-quadrant angle whose sine is the magnitude of the sine of `angle`.
pub open spec fn quadrant_angle(angle: int) -> int {
    let m = angle % FULL_TURN as int;
    if m <= QUARTER_TURN {
        m
    } else if m <= HALF_TURN {
        HALF_TURN - m
    } else if m <= HALF_TURN + QUARTER_TURN {
        m - HALF_TURN
    } else {
        FULL_TURN - m
    }
}

/// Largest squared argument that a first-quadrant angle produces.
pub open spec fn max_squared() -> int {
    2_467_401_100
}

/// Every nested factor lies between `1 - z / 6` and one.
pub proof fn lemma_series_factor_bounds(z: int, k: int)
    requires
        0 <= z <= max_squared(),
        0 <= k <= SERIES_TERMS,
    ensures
        NANO - z / 6 <= series_factor(z, k) <= NANO,
    decreases SERIES_TERMS - k,
{
    if k < SERIES_TERMS {
        lemma_series_factor_bounds(z, k + 1);
        let t = series_factor(z, k + 1);
        let d = series_divisor(k) * NANO;
        assert(6 <= series_divisor(k) <= 156) by (nonlinear_arith)
            requires
                0 <= k < 6,
        ;
        assert(0 <= z * t <= z * NANO) by (nonlinear_arith)
            requires
                0 <= z,
                0 <= t <= NANO,
        ;
        lemma_div_is_ordered_by_denominator(z * t, 6 * NANO, d);
        assert(z * t / (6 * NANO) <= z * NANO / (6 * NANO));
        assert(z * NANO / (6 * NANO) == z / 6);
        assert(0 <= z * t / d) by (nonlinear_arith)
            requires
                0 <= z * t,
                0 < d,
        ;
    }
}

/// The radians of a first-quadrant angle, and their square, stay in range.
pub proof fn lemma_quadrant_radians_bounds(q: int)
    requires
        0 <= q <= QUARTER_TURN,
    ensures
        0 <= quadrant_radians(q) <= 1_570_796_326,
        0 <= squared(quadrant_radians(q)) <= max_squared(),
        q * 17_453_292 / 1_000_000 <= quadrant_radians(q),
{
    let x = quadrant_radians(q);
    assert(0 <= q * RADIANS_PER_DEGREE <= 90_000_000 * 17_453_292_520);
    assert(0 <= x * x <= 1_570_796_326 * 1_570_796_326) by (nonlinear_arith)
        requires
            0 <= x <= 1_570_796_326,
    ;
}

/// The sine of a first-quadrant angle lies between nothing and one, is no
/// more than the angle in radians, and at least 58 hundredths of it (less
/// rounding).
pub proof fn lemma_sin_quadrant_bounds(q: int)
    requires
        0 <= q <= QUARTER_TURN,
    ensures
        0 <= sin_quadrant(q) <= NANO,
        sin_quadrant(q) <= quadrant_radians(q),
        sin_quadrant(q) >= quadrant_radians(q) * 58 / 100 - 1,
{
    reveal(sin_quadrant);
    let x = quadrant_radians(q);
    let z = squared(x);
    lemma_quadrant_radians_bounds(q);
    lemma_series_factor_bounds(z, 0);
    let t = series_factor(z, 0);
    assert(580_000_000 <= t <= NANO);
    assert(x * 580_000_000 <= x * t <= x * NANO) by (nonlinear_arith)
        requires
            0 <= x,
            580_000_000 <= t <= NANO,
    ;
    assert(0 <= x * t);
}

/// The nested factor of the sine series from term `k` inwards, cut off
/// before term `depth`.
pub open spec fn series_partial(z: int, k: int, depth: int) -> int
    decreases depth - k,
{
    if k >= depth {
        NANO as int
    } else {
        NANO - z * series_partial(z, k + 1, depth) / (series_divisor(k) * NANO)
    }
}

/// The sum of the first `depth + 1` terms of the sine series for the
/// argument `x`: `x`, then `x - x^3 / 6`, then `x - x^3 / 6 + x^5 / 120`, and
/// so on.
pub open spec fn sine_partial(x: int, depth: int) -> int {
    x * series_partial(squared(x), 0, depth) / NANO as int
}

/// The partial factors lie on either side of the whole factor in turn: one
/// that is cut off an even number of terms further in lies above, one that
/// is cut off an odd number of terms further in lies below.
pub proof fn lemma_series_alternates(z: int, k: int, depth: int)
    requires
        0 <= z <= max_squared(),
        0 <= k <= depth <= SERIES_TERMS,
    ensures
        0 <= series_partial(z, k, depth) <= NANO,
        (depth - k) % 2 == 0 ==> series_partial(z, k, depth) >= series_factor(z, k),
        (depth - k) % 2 == 1 ==> series_partial(z, k, depth) <= series_factor(z, k),
    decreases depth - k,
{
    lemma_series_factor_bounds(z, k);
    if k < depth {
        lemma_series_alternates(z, k + 1, depth);
        lemma_series_factor_bounds(z, k + 1);
        let whole = series_factor(z, k + 1);
        let part = series_partial(z, k + 1, depth);
        let d = series_divisor(k) * NANO;
        assert(6 <= series_divisor(k) <= 156) by (nonlinear_arith)
            requires
                0 <= k < 6,
        ;
        assert(0 <= z * part <= z * NANO && 0 <= z * whole) by (nonlinear_arith)
            requires
                0 <= z,
                0 <= part <= NANO,
                0 <= whole,
        ;
        lemma_div_is_ordered_by_denominator(z * part, 6 * NANO, d);
        assert(z * NANO / (6 * NANO) == z / 6);
        assert(0 <= z * part / d) by (nonlinear_arith)
            requires
                0 <= z * part,
                0 < d,
        ;
        if (depth - k) % 2 == 0 {
            assert(z * part <= z * whole) by (nonlinear_arith)
                requires
                    0 <= z,
                    part <= whole,
            ;
            lemma_div_is_ordered(z * part, z * whole, d);
        } else {
            assert(z * part >= z * whole) by (nonlinear_arith)
                requires
                    0 <= z,
                    part >= whole,
            ;
            lemma_div_is_ordered(z * whole, z * part, d);
        }
    }
}

/// The sine of a first-quadrant angle lies where the real sine lies: the
/// partial sums of the series lie above it and below it in turn. It is no
/// more than the sum of one, three or five terms, and no less than the sum
/// of two, four or six, unless it is one. The sums of five and of six terms
/// differ by `x^11 / 11!`, less than four millionths over the whole
/// quadrant.
pub proof fn lemma_sin_quadrant_envelope(q: int, depth: int)
    requires
        0 <= q <= QUARTER_TURN,
        0 <= depth <= SERIES_TERMS,
    ensures
        depth % 2 == 0 ==> sin_quadrant(q) <= sine_partial(quadrant_radians(q), depth),
        depth % 2 == 1 ==> sin_quadrant(q) >= sine_partial(quadrant_radians(q), depth)
            || sin_quadrant(q) == NANO,
{
    reveal(sin_quadrant);
    let x = quadrant_radians(q);
    let z = squared(x);
    lemma_quadrant_radians_bounds(q);
    lemma_series_alternates(z, 0, depth);
    let whole = series_factor(z, 0);
    let part = series_partial(z, 0, depth);
    if depth % 2 == 0 {
        assert(x * whole <= x * part) by (nonlinear_arith)
            requires
                0 <= x,
                whole <= part,
        ;
    } else {
        assert(x * whole >= x * part) by (nonlinear_arith)
            requires
                0 <= x,
                whole >= part,
        ;
    }
}

/// How far the factors cut off before the fifth and before the sixth term
/// can differ at term `k`, at most.
pub open spec fn partial_gap(k: int) -> int {
    if k >= 4 {
        22_430_920
    } else if k == 3 {
        768_696
    } else if k == 2 {
        45_160
    } else if k == 1 {
        5_572
    } else {
        2_292
    }
}

/// Two quotients by the same divisor are as close as their dividends, over
/// the divisor, and one more.
proof fn lemma_quotients_close(a: int, b: int, d: int, bound: int)
    requires
        0 < d,
        -bound <= a - b <= bound,
    ensures
        -(bound / d + 1) <= a / d - b / d <= bound / d + 1,
{
    vstd::arithmetic::div_mod::lemma_fundamental_div_mod(a, d);
    vstd::arithmetic::div_mod::lemma_fundamental_div_mod(b, d);
    vstd::arithmetic::div_mod::lemma_fundamental_div_mod(bound, d);
    let (qa, qb, qc) = (a / d, b / d, bound / d);
    let (ra, rb, rc) = (a % d, b % d, bound % d);
    assert(-(qc + 1) <= qa - qb <= qc + 1) by (nonlinear_arith)
        requires
            a == d * qa + ra,
            b == d * qb + rb,
            bound == d * qc + rc,
            0 <= ra < d,
            0 <= rb < d,
            0 <= rc < d,
            -bound <= a - b <= bound,
            0 < d,
    ;
}

/// The factors cut off before the fifth and before the sixth term differ
/// by little, and by less with every term further out.
pub proof fn lemma_partial_gap(z: int, k: int)
    requires
        0 <= z <= max_squared(),
        0 <= k <= 4,
    ensures
        abs_int(series_partial(z, k, 4) - series_partial(z, k, 5)) <= partial_gap(k),
    decreases 4 - k,
{
    reveal_with_fuel(series_partial, 3);
    let high = series_partial(z, k + 1, 4);
    let low = series_partial(z, k + 1, 5);
    lemma_series_alternates(z, k + 1, 5);
    assert(series_divisor(0) == 6 && series_divisor(1) == 20 && series_divisor(2) == 42
        && series_divisor(3) == 72 && series_divisor(4) == 110) by {
        assert(2int * 3 == 6 && 4int * 5 == 20 && 6int * 7 == 42 && 8int * 9 == 72 && 10int * 11
            == 110);
    }
    if k == 4 {
        assert(series_partial(z, 4, 4) == NANO);
        assert(series_partial(z, 5, 5) == NANO);
        assert(z * NANO / 110_000_000_000 == z / 110);
        assert(series_partial(z, 4, 5) == NANO - z * NANO / (110 * NANO));
    } else {
        lemma_partial_gap(z, k + 1);
        lemma_series_alternates(z, k + 1, 4);
        let gap = partial_gap(k + 1);
        let divisor = series_divisor(k) * NANO;
        let (a, b) = (z * high, z * low);
        let bound = 2_467_401_100 * gap;
        assert(-bound <= a - b <= bound) by (nonlinear_arith)
            requires
                a == z * high,
                b == z * low,
                0 <= z <= 2_467_401_100,
                -gap <= high - low <= gap,
                gap >= 0,
                bound == 2_467_401_100 * gap,
        ;
        assert(series_partial(z, k, 4) == NANO - a / divisor);
        assert(series_partial(z, k, 5) == NANO - b / divisor);
        lemma_quotients_close(a, b, divisor, bound);
        if k == 3 {
            assert(divisor == 72_000_000_000 && bound == 2_467_401_100 * 22_430_920);
        } else if k == 2 {
            assert(divisor == 42_000_000_000 && bound == 2_467_401_100 * 768_696);
        } else if k == 1 {
            assert(divisor == 20_000_000_000 && bound == 2_467_401_100 * 45_160);
        } else {
            assert(divisor == 6_000_000_000 && bound == 2_467_401_100 * 5_572);
        }
    }
}

/// The sine of a first-quadrant angle is no more than the sum of five terms
/// of the series, and less than four millionths below it. The real sine
/// lies between the sums of five and of six terms, which the same bound
/// keeps together: so the sine here is within four millionths of the real
/// sine over the whole quadrant.
pub proof fn lemma_sin_quadrant_accuracy(q: int)
    requires
        0 <= q <= QUARTER_TURN,
    ensures
        sin_quadrant(q) <= sine_partial(quadrant_radians(q), 4),
        sin_quadrant(q) >= sine_partial(quadrant_radians(q), 4) - 3_601 || sin_quadrant(q)
            == NANO,
        sine_partial(quadrant_radians(q), 4) - 3_601 <= sine_partial(quadrant_radians(q), 5)
            <= sine_partial(quadrant_radians(q), 4),
{
    let x = quadrant_radians(q);
    let z = squared(x);
    lemma_quadrant_radians_bounds(q);
    lemma_sin_quadrant_envelope(q, 4);
    lemma_sin_quadrant_envelope(q, 5);
    lemma_partial_gap(z, 0);
    lemma_series_alternates(z, 0, 4);
    lemma_series_alternates(z, 0, 5);
    let high = series_partial(z, 0, 4);
    let low = series_partial(z, 0, 5);
    lemma_series_factor_bounds(z, 0);
    assert(low <= high);
    let (a, b) = (x * high, x * low);
    assert(0 <= a - b <= 1_570_796_326 * 2_292 && 0 <= b) by (nonlinear_arith)
        requires
            a == x * high,
            b == x * low,
            0 <= x <= 1_570_796_326,
            0 <= high - low <= 2_292,
            0 <= low,
    ;
    assert(sine_partial(x, 4) == a / 1_000_000_000);
    assert(sine_partial(x, 5) == b / 1_000_000_000);
}

/// Sine and cosine of any angle are, in magnitude, no more than the sum of
/// five terms of the series for the angle folded into the first quadrant,
/// and less than four millionths below it: within four millionths of the
/// real sine and cosine.
pub proof fn lemma_sin_cos_accuracy(angle: int)
    ensures
        ({
            let x = quadrant_radians(quadrant_angle(angle));
            let s = abs_int(sin_spec(angle));
            sine_partial(x, 4) - 3_601 <= s <= sine_partial(x, 4) || s == NANO && s
                <= sine_partial(x, 4)
        }),
        ({
            let y = quadrant_radians(QUARTER_TURN - quadrant_angle(angle));
            let c = abs_int(cos_spec(angle));
            sine_partial(y, 4) - 3_601 <= c <= sine_partial(y, 4) || c == NANO && c
                <= sine_partial(y, 4)
        }),
{
    lemma_sin_cos_quadrant(angle);
    lemma_sin_quadrant_accuracy(quadrant_angle(angle));
    lemma_sin_quadrant_accuracy(QUARTER_TURN - quadrant_angle(angle));
}

/// The sine of the zero angle is zero.
pub proof fn lemma_sin_quadrant_zero()
    ensures
        sin_quadrant(0) == 0,
{
    reveal(sin_quadrant);
    let x = quadrant_radians(0);
    assert(x == 0);
    assert(x * series_factor(squared(x), 0) == 0) by (nonlinear_arith)
        requires
            x == 0,
    ;
}

/// One term of the series for known numbers: from the factor of term
/// `k + 1` to the factor of term `k`.
proof fn lemma_series_step(z: int, k: int, known_z: int, inner: int, divisor: int)
    requires
        0 <= k < SERIES_TERMS,
        z == known_z,
        series_factor(z, k + 1) == inner,
        series_divisor(k) == divisor,
    ensures
        series_factor(z, k) == NANO - (known_z * inner) / (divisor * NANO),
{
}

/// The sine of a right angle is one.
pub proof fn lemma_sin_quadrant_quarter()
    ensures
        sin_quadrant(QUARTER_TURN as int) == NANO,
{
    reveal(sin_quadrant);
    let x = quadrant_radians(QUARTER_TURN as int);
    assert(x == 1_570_796_326);
    assert(x * x == 1_570_796_326int * 1_570_796_326);
    let z = squared(x);
    let known_z: int = 2_467_401_097;
    assert(z == known_z);
    assert(2int * 3 == 6 && 4int * 5 == 20 && 6int * 7 == 42 && 8int * 9 == 72 && 10int * 11
        == 110 && 12int * 13 == 156);
    lemma_series_step(z, 5, known_z, 1_000_000_000, 156);
    lemma_series_step(z, 4, known_z, 984_183_327, 110);
    lemma_series_step(z, 3, known_z, 977_923_864, 72);
    lemma_series_step(z, 2, known_z, 966_487_078, 42);
    lemma_series_step(z, 1, known_z, 943_221_161, 20);
    lemma_series_step(z, 0, known_z, 883_634_754, 6);
    let t = series_factor(z, 0);
    assert(t == 636_619_774);
    assert(x * t == 1_570_796_326int * 636_619_774);
}

/// At the quarter turns sine and cosine are exactly nothing, one or minus
/// one.
pub proof fn lemma_quarter_turns()
    ensures
        sin_spec(0) == 0,
        cos_spec(0) == NANO,
        sin_spec(QUARTER_TURN as int) == NANO,
        cos_spec(QUARTER_TURN as int) == 0,
        sin_spec(HALF_TURN as int) == 0,
        cos_spec(HALF_TURN as int) == -NANO,
        sin_spec(HALF_TURN + QUARTER_TURN) == -NANO,
        cos_spec(HALF_TURN + QUARTER_TURN) == 0,
{
    lemma_sin_quadrant_zero();
    lemma_sin_quadrant_quarter();
}

/// In every quadrant the magnitudes of sine and cosine are first-quadrant
/// sines of complementary angles.
pub proof fn lemma_sin_cos_quadrant(angle: int)
    ensures
        0 <= quadrant_angle(angle) <= QUARTER_TURN,
        abs_int(sin_spec(angle)) == sin_quadrant(quadrant_angle(angle)),
        abs_int(cos_spec(angle)) == sin_quadrant(QUARTER_TURN - quadrant_angle(angle)),
{
    let q = quadrant_angle(angle);
    let m = angle % FULL_TURN as int;
    let shifted = (angle + QUARTER_TURN) % FULL_TURN as int;
    assert(shifted == if m >= FULL_TURN - QUARTER_TURN {
        m - (FULL_TURN - QUARTER_TURN)
    } else {
        m + QUARTER_TURN
    });
    lemma_sin_quadrant_bounds(q);
    lemma_sin_quadrant_bounds(QUARTER_TURN - q);
    lemma_sin_quadrant_zero();
}

/// Sine and cosine never exceed one in magnitude.
pub proof fn lemma_sin_cos_range(angle: int)
    ensures
        -NANO <= sin_spec(angle) <= NANO,
        -NANO <= cos_spec(angle) <= NANO,
{
    lemma_sin_cos_quadrant(angle);
    lemma_sin_quadrant_bounds(quadrant_angle(angle));
    lemma_sin_quadrant_bounds(QUARTER_TURN - quadrant_angle(angle));
}

/// Sine and cosine of one angle are never both small: one of them is at
/// least 45 hundredths in magnitude.
pub proof fn lemma_sin_cos_not_both_small(angle: int)
    ensures
        abs_int(sin_spec(angle)) >= 450_000_000 || abs_int(cos_spec(angle)) >= 450_000_000,
{
    let q = quadrant_angle(angle);
    lemma_sin_cos_quadrant(angle);
    lemma_sin_quadrant_bounds(q);
    lemma_sin_quadrant_bounds(QUARTER_TURN - q);
    lemma_quadrant_radians_bounds(q);
    lemma_quadrant_radians_bounds(QUARTER_TURN - q);
}

/// Sine is odd: turning the other way changes its sign.
pub proof fn lemma_sin_odd(angle: int)
    ensures
        sin_spec(-angle) == -sin_spec(angle),
{
    lemma_sin_quadrant_zero();
    let m = angle % FULL_TURN as int;
    let n = (-angle) % FULL_TURN as int;
    assert(n == if m == 0 {
        0
    } else {
        FULL_TURN - m
    });
}

/// Cosine is even: turning the other way leaves it unchanged.
pub proof fn lemma_cos_even(angle: int)
    ensures
        cos_spec(-angle) == cos_spec(angle),
{
    lemma_sin_quadrant_zero();
    let m = (angle + QUARTER_TURN) % FULL_TURN as int;
    let n = (-angle + QUARTER_TURN) % FULL_TURN as int;
    assert(n == if m <= HALF_TURN {
        HALF_TURN - m
    } else {
        FULL_TURN + HALF_TURN - m
    });
}

/// Sine and cosine repeat after a full turn.
pub proof fn lemma_sin_cos_periodic(angle: int)
    ensures
        sin_spec(angle + FULL_TURN) == sin_spec(angle),
        cos_spec(angle + FULL_TURN) == cos_spec(angle),
{
    assert((angle + FULL_TURN) % FULL_TURN as int == angle % FULL_TURN as int);
    assert((angle + FULL_TURN + QUARTER_TURN) % FULL_TURN as int == (angle + QUARTER_TURN)
        % FULL_TURN as int);
}

/// The nested factor of the sine series for the squared argument `z`.
fn series(z: i64) -> (t: i64)
    requires
        0 <= z <= max_squared(),
    ensures
        t == series_factor(z as int, 0),
        NANO - z / 6 <= t <= NANO,
{
    let mut t: i64 = NANO;
    let mut k: i64 = SERIES_TERMS;
    while k > 0
        invariant
            0 <= k <= SERIES_TERMS,
            0 <= z <= max_squared(),
            t == series_factor(z as int, k as int),
            NANO - z / 6 <= t <= NANO,
        decreases k,
    {
        k = k - 1;
        assert(6 <= (2 * k + 2) * (2 * k + 3) <= 156) by (nonlinear_arith)
            requires
                0 <= k < 6,
        ;
        let divisor: i64 = (2 * k + 2) * (2 * k + 3);
        proof {
            lemma_series_factor_bounds(z as int, k as int);
            assert(divisor == series_divisor(k as int));
            assert(0 <= z * t <= 2_467_401_100 * 1_000_000_000) by (nonlinear_arith)
                requires
                    0 <= z <= 2_467_401_100,
                    0 <= t <= 1_000_000_000,
            ;
        }
        t = NANO - z * t / (divisor * NANO);
    }
    t
}

/// The sine of the first-quadrant angle `q`.
fn sin_first_quadrant(q: i64) -> (r: i64)
    requires
        0 <= q <= QUARTER_TURN,
    ensures
        r == sin_quadrant(q as int),
        0 <= r <= NANO,
{
    proof {
        reveal(sin_quadrant);
        lemma_quadrant_radians_bounds(q as int);
        lemma_sin_quadrant_bounds(q as int);
    }
    let x: i64 = q * RADIANS_PER_DEGREE / NANO;
    assert(0 <= x * x <= 1_570_796_326 * 1_570_796_326) by (nonlinear_arith)
        requires
            0 <= x <= 1_570_796_326,
    ;
    let z: i64 = x * x / NANO;
    let t: i64 = series(z);
    assert(0 <= x * t <= 1_570_796_326 * 1_000_000_000) by (nonlinear_arith)
        requires
            0 <= x <= 1_570_796_326,
            0 <= t <= 1_000_000_000,
    ;
    let r: i64 = x * t / NANO;
    if r > NANO {
        NANO
    } else {
        r
    }
}

/// The sine of an angle `m` that lies within one turn.
fn sin_within_turn(m: i64) -> (r: i64)
    requires
        0 <= m < FULL_TURN,
    ensures
        r == sin_reduced(m as int),
        -NANO <= r <= NANO,
{
    if m <= QUARTER_TURN {
        sin_first_quadrant(m)
    } else if m <= HALF_TURN {
        sin_first_quadrant(HALF_TURN - m)
    } else if m <= HALF_TURN + QUARTER_TURN {
        -sin_first_quadrant(m - HALF_TURN)
    } else {
        -sin_first_quadrant(FULL_TURN - m)
    }
}

/// `angle` reduced to one turn.
fn reduce(angle: i64) -> (m: i64)
    ensures
        m == angle as int % FULL_TURN as int,
        0 <= m < FULL_TURN,
{
    match angle.checked_rem_euclid(FULL_TURN) {
        Some(m) => m,
        None => 0,
    }
}

/// The sine of `angle`, an angle in millionths of a degree, counted in
/// thousand-millionths.
pub fn sin(angle: i64) -> (r: i64)
    ensures
        r == sin_spec(angle as int),
        -NANO <= r <= NANO,
{
    sin_within_turn(reduce(angle))
}

/// The cosine of `angle`, an angle in millionths of a degree, counted in
/// thousand-millionths.
pub fn cos(angle: i64) -> (r: i64)
    ensures
        r == cos_spec(angle as int),
        -NANO <= r <= NANO,
{
    let m: i64 = reduce(angle);
    assert((m + 90_000_000) % 360_000_000 == (angle + 90_000_000) % 360_000_000);
    sin(m + QUARTER_TURN)
}

} // verus!
