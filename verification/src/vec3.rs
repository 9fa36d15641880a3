//! Three-component vectors over integers: dot and cross products, and
//! normalisation to a length of one million.

use vstd::prelude::*;
use vstd::arithmetic::div_mod::lemma_fundamental_div_mod;
use crate::fixed::{
    abs_int, div_toward_zero, int_sqrt, is_isqrt, isqrt, lemma_isqrt_exists, lemma_isqrt_unique,
    MICRO,
};

verus! {

/// A vector whose components are all below this in magnitude is short.
pub const SHORT: i64 = 0x8000_0000;

/// The factor by which a short vector is stretched before it is normalised.
pub const STRETCH: i64 = 0x1_0000_0000;

/// A vector of mathematical integers: what the vector types stand for.
pub struct IntVec3 {
    pub x: int,
    pub y: int,
    pub z: int,
}

impl IntVec3 {
    /// The dot product with `other`.
    pub open spec fn dot(self, other: IntVec3) -> int {
        self.x * other.x + self.y * other.y + self.z * other.z
    }

    /// The cross product with `other`.
    pub open spec fn cross(self, other: IntVec3) -> IntVec3 {
        IntVec3 {
            x: self.y * other.z - self.z * other.y,
            y: self.z * other.x - self.x * other.z,
            z: self.x * other.y - self.y * other.x,
        }
    }

    /// The square of the length.
    pub open spec fn norm_squared(self) -> int {
        self.dot(self)
    }

    /// The length, rounded down.
    pub open spec fn length(self) -> int {
        int_sqrt(self.norm_squared())
    }

    /// Every component multiplied by `k`.
    pub open spec fn scaled(self, k: int) -> IntVec3 {
        IntVec3 { x: self.x * k, y: self.y * k, z: self.z * k }
    }

    /// The sum of the magnitudes of the components.
    pub open spec fn abs_sum(self) -> int {
        abs_int(self.x) + abs_int(self.y) + abs_int(self.z)
    }

    /// Whether every component is nothing.
    pub open spec fn is_zero(self) -> bool {
        self.x == 0 && self.y == 0 && self.z == 0
    }

    /// Whether every component is small enough for the vector to be
    /// stretched.
    pub open spec fn is_short(self) -> bool {
        abs_int(self.x) < SHORT && abs_int(self.y) < SHORT && abs_int(self.z) < SHORT
    }

    /// The factor by which the vector is stretched before its length is
    /// taken.
    pub open spec fn stretch_factor(self) -> int {
        if self.is_short() {
            STRETCH as int
        } else {
            1
        }
    }

    /// The vector of the same direction that is long enough for the rounding
    /// of its length not to tell.
    pub open spec fn stretched(self) -> IntVec3 {
        self.scaled(self.stretch_factor())
    }

    /// Every component times one million over the rounded-down length,
    /// rounded toward zero; the zero vector for a vector shorter than one.
    pub open spec fn rescaled(self) -> IntVec3 {
        let len = self.length();
        if len == 0 {
            IntVec3 { x: 0, y: 0, z: 0 }
        } else {
            IntVec3 {
                x: div_toward_zero(self.x * MICRO, len),
                y: div_toward_zero(self.y * MICRO, len),
                z: div_toward_zero(self.z * MICRO, len),
            }
        }
    }

    /// The vector of the same direction whose length is one, counted in
    /// millionths: the vector is stretched, then every component is taken
    /// over the length. The zero vector has no direction and stays as it is.
    pub open spec fn normalized(self) -> IntVec3 {
        self.stretched().rescaled()
    }

    /// Whether each component is within `tolerance` of that of `other`.
    pub open spec fn is_within(self, other: IntVec3, tolerance: int) -> bool {
        &&& abs_int(self.x - other.x) <= tolerance
        &&& abs_int(self.y - other.y) <= tolerance
        &&& abs_int(self.z - other.z) <= tolerance
    }

    /// Whether the length is one within a hundred-thousandth, counted in
    /// millionths.
    pub open spec fn is_unit(self) -> bool {
        (MICRO - 10) * (MICRO - 10) <= self.norm_squared() <= (MICRO + 10) * (MICRO + 10)
    }

    /// Whether the dot product with `other` is zero within a
    /// hundred-thousandth, both counted in millionths.
    pub open spec fn is_orthogonal_to(self, other: IntVec3) -> bool {
        -10 * MICRO <= self.dot(other) <= 10 * MICRO
    }
}

/// A direction whose components are counted in millionths.
#[derive(Clone, Copy, Debug, PartialEq, Eq, Structural)]
pub struct Vec3 {
    pub x: i32,
    pub y: i32,
    pub z: i32,
}

impl View for Vec3 {
    type V = IntVec3;

    open spec fn view(&self) -> IntVec3 {
        IntVec3 { x: self.x as int, y: self.y as int, z: self.z as int }
    }
}

/// A vector of wide components, as products of directions are.
#[derive(Clone, Copy, Debug, PartialEq, Eq, Structural)]
pub struct WideVec3 {
    pub x: i64,
    pub y: i64,
    pub z: i64,
}

impl View for WideVec3 {
    type V = IntVec3;

    open spec fn view(&self) -> IntVec3 {
        IntVec3 { x: self.x as int, y: self.y as int, z: self.z as int }
    }
}

/// A cross product is at right angles to both of its factors.
pub proof fn lemma_cross_orthogonal(a: IntVec3, b: IntVec3)
    ensures
        a.cross(b).dot(a) == 0,
        a.cross(b).dot(b) == 0,
{
    assert((a.y * b.z - a.z * b.y) * a.x + (a.z * b.x - a.x * b.z) * a.y + (a.x * b.y - a.y * b.x)
        * a.z == 0) by (nonlinear_arith);
    assert((a.y * b.z - a.z * b.y) * b.x + (a.z * b.x - a.x * b.z) * b.y + (a.x * b.y - a.y * b.x)
        * b.z == 0) by (nonlinear_arith);
}

/// `(u - v)^2` written out, for `u = p * q` and `v = r * t`.
proof fn lemma_square_of_difference(p: int, q: int, r: int, t: int)
    ensures
        (p * q - r * t) * (p * q - r * t) == (p * p) * (q * q) - 2 * ((p * t) * (r * q)) + (r * r)
            * (t * t),
{
    let u = p * q;
    let v = r * t;
    assert((u - v) * (u - v) == u * u - 2 * (u * v) + v * v) by (nonlinear_arith);
    assert(u * u == (p * p) * (q * q)) by (nonlinear_arith)
        requires
            u == p * q,
    ;
    assert(v * v == (r * r) * (t * t)) by (nonlinear_arith)
        requires
            v == r * t,
    ;
    assert(u * v == (p * t) * (r * q)) by (nonlinear_arith)
        requires
            u == p * q,
            v == r * t,
    ;
}

/// The squared length of a cross product is the product of the squared
/// lengths less the square of the dot product.
pub proof fn lemma_cross_norm(a: IntVec3, b: IntVec3)
    ensures
        a.cross(b).norm_squared() == a.norm_squared() * b.norm_squared() - a.dot(b) * a.dot(b),
{
    let (ax, ay, az) = (a.x * a.x, a.y * a.y, a.z * a.z);
    let (bx, by, bz) = (b.x * b.x, b.y * b.y, b.z * b.z);
    let (px, py, pz) = (a.x * b.x, a.y * b.y, a.z * b.z);
    lemma_square_of_difference(a.y, b.z, a.z, b.y);
    lemma_square_of_difference(a.z, b.x, a.x, b.z);
    lemma_square_of_difference(a.x, b.y, a.y, b.x);
    assert((a.y * b.y) * (a.z * b.z) == py * pz);
    assert((a.z * b.z) * (a.x * b.x) == pz * px);
    assert((a.x * b.x) * (a.y * b.y) == px * py);
    assert(px * px == ax * bx) by (nonlinear_arith)
        requires
            px == a.x * b.x,
            ax == a.x * a.x,
            bx == b.x * b.x,
    ;
    assert(py * py == ay * by) by (nonlinear_arith)
        requires
            py == a.y * b.y,
            ay == a.y * a.y,
            by == b.y * b.y,
    ;
    assert(pz * pz == az * bz) by (nonlinear_arith)
        requires
            pz == a.z * b.z,
            az == a.z * a.z,
            bz == b.z * b.z,
    ;
    assert((ax + ay + az) * (bx + by + bz) == ax * bx + ax * by + ax * bz + ay * bx + ay * by + ay
        * bz + az * bx + az * by + az * bz) by (nonlinear_arith);
    assert((px + py + pz) * (px + py + pz) == px * px + py * py + pz * pz + 2 * (py * pz) + 2 * (pz
        * px) + 2 * (px * py)) by (nonlinear_arith);
}

/// The dot product is symmetric.
pub proof fn lemma_dot_symmetric(a: IntVec3, b: IntVec3)
    ensures
        a.dot(b) == b.dot(a),
{
    assert(a.x * b.x == b.x * a.x) by (nonlinear_arith);
    assert(a.y * b.y == b.y * a.y) by (nonlinear_arith);
    assert(a.z * b.z == b.z * a.z) by (nonlinear_arith);
}

/// A squared length is never negative, and at least the square of each
/// component.
pub proof fn lemma_norm_squared_nonnegative(v: IntVec3)
    ensures
        v.norm_squared() >= 0,
        v.norm_squared() >= v.x * v.x >= 0,
        v.norm_squared() >= v.y * v.y >= 0,
        v.norm_squared() >= v.z * v.z >= 0,
{
    assert(v.x * v.x >= 0) by (nonlinear_arith);
    assert(v.y * v.y >= 0) by (nonlinear_arith);
    assert(v.z * v.z >= 0) by (nonlinear_arith);
}

/// A vector is the zero vector exactly if its squared length is nothing.
pub proof fn lemma_zero_norm(v: IntVec3)
    ensures
        v.is_zero() <==> v.norm_squared() == 0,
{
    lemma_norm_squared_nonnegative(v);
    assert(v.x != 0 ==> v.x * v.x > 0) by (nonlinear_arith);
    assert(v.y != 0 ==> v.y * v.y > 0) by (nonlinear_arith);
    assert(v.z != 0 ==> v.z * v.z > 0) by (nonlinear_arith);
}

/// The rounded-down length of a vector is its integer square root, and no
/// component is longer.
pub proof fn lemma_length(v: IntVec3)
    ensures
        is_isqrt(v.norm_squared(), v.length()),
        abs_int(v.x) <= v.length(),
        abs_int(v.y) <= v.length(),
        abs_int(v.z) <= v.length(),
{
    lemma_norm_squared_nonnegative(v);
    lemma_isqrt_exists(v.norm_squared());
    let len = v.length();
    lemma_component_below_root(v.x, v.norm_squared(), len);
    lemma_component_below_root(v.y, v.norm_squared(), len);
    lemma_component_below_root(v.z, v.norm_squared(), len);
}

/// A number whose square does not exceed `n` is no larger in magnitude than
/// the integer square root of `n`.
proof fn lemma_component_below_root(a: int, n: int, len: int)
    requires
        a * a <= n,
        is_isqrt(n, len),
    ensures
        abs_int(a) <= len,
{
    assert(abs_int(a) < len + 1) by (nonlinear_arith)
        requires
            a * a < (len + 1) * (len + 1),
            0 <= len,
    ;
}

/// What rounding toward zero leaves behind when `a * m` is divided by `len`.
pub open spec fn remainder_toward_zero(a: int, m: int, len: int) -> int {
    a * m - div_toward_zero(a * m, len) * len
}

/// The part lost in rounding is shorter than the divisor and points the same
/// way as the dividend; the quotient of a component is at most `m`.
proof fn lemma_component_rounding(a: int, m: int, len: int)
    requires
        0 < len,
        0 <= m,
        abs_int(a) <= len,
    ensures
        abs_int(remainder_toward_zero(a, m, len)) <= len - 1,
        0 <= a * remainder_toward_zero(a, m, len) <= len * (len - 1),
        abs_int(div_toward_zero(a * m, len)) <= m,
{
    let e = remainder_toward_zero(a, m, len);
    let r = div_toward_zero(a * m, len);
    if a >= 0 {
        let p = a * m;
        assert(0 <= p <= len * m) by (nonlinear_arith)
            requires
                0 <= a <= len,
                0 <= m,
                p == a * m,
        ;
        lemma_fundamental_div_mod(p, len);
        assert(len * (p / len) == (p / len) * len) by (nonlinear_arith);
        assert(e == p % len);
        assert(0 <= a * e <= len * (len - 1)) by (nonlinear_arith)
            requires
                0 <= a <= len,
                0 <= e <= len - 1,
        ;
        assert(r <= m) by (nonlinear_arith)
            requires
                r * len <= p,
                p <= len * m,
                0 < len,
        ;
        assert(0 <= r) by (nonlinear_arith)
            requires
                r == p / len,
                0 <= p,
                0 < len,
        ;
    } else {
        let p = -(a * m);
        assert(p == (-a) * m) by (nonlinear_arith)
            requires
                p == -(a * m),
        ;
        assert(0 <= p <= len * m) by (nonlinear_arith)
            requires
                0 <= -a <= len,
                0 <= m,
                p == (-a) * m,
        ;
        lemma_fundamental_div_mod(p, len);
        assert(len * (p / len) == (p / len) * len) by (nonlinear_arith);
        if a * m >= 0 {
            assert(p == 0);
            assert(p / len == 0);
            assert(r == 0);
            assert(e == 0);
            assert(a * e == 0) by (nonlinear_arith)
                requires
                    e == 0,
            ;
            assert(0 <= len * (len - 1)) by (nonlinear_arith)
                requires
                    0 < len,
            ;
        } else {
            assert(r == -(p / len));
            assert(r * len == -((p / len) * len)) by (nonlinear_arith)
                requires
                    r == -(p / len),
            ;
            assert(e == -(p % len));
            assert(0 <= a * e <= len * (len - 1)) by (nonlinear_arith)
                requires
                    0 <= -a <= len,
                    0 <= -e <= len - 1,
            ;
            assert(-r <= m) by (nonlinear_arith)
                requires
                    (-r) * len <= p,
                    p <= len * m,
                    0 < len,
            ;
            assert(0 <= -r) by (nonlinear_arith)
                requires
                    -r == p / len,
                    0 <= p,
                    0 < len,
            ;
        }
    }
}

/// No component of a rescaled vector exceeds one.
pub proof fn lemma_rescaled_components(v: IntVec3)
    ensures
        abs_int(v.rescaled().x) <= MICRO,
        abs_int(v.rescaled().y) <= MICRO,
        abs_int(v.rescaled().z) <= MICRO,
{
    lemma_length(v);
    let len = v.length();
    if len > 0 {
        lemma_component_rounding(v.x, MICRO as int, len);
        lemma_component_rounding(v.y, MICRO as int, len);
        lemma_component_rounding(v.z, MICRO as int, len);
    }
}

/// The square of a rounded quotient, written out over the dividend and the
/// part lost in rounding.
proof fn lemma_rounded_square(a: int, m: int, len: int)
    ensures
        ({
            let r = div_toward_zero(a * m, len);
            let e = remainder_toward_zero(a, m, len);
            (r * r) * (len * len) == (a * a) * (m * m) - 2 * m * (a * e) + e * e
        }),
{
    let r = div_toward_zero(a * m, len);
    let e = remainder_toward_zero(a, m, len);
    let u = r * len;
    let p = a * m;
    assert(u == p - e);
    assert(u * u == p * p - 2 * (p * e) + e * e) by (nonlinear_arith)
        requires
            u == p - e,
    ;
    assert(u * u == (r * r) * (len * len)) by (nonlinear_arith)
        requires
            u == r * len,
    ;
    assert(p * p == (a * a) * (m * m)) by (nonlinear_arith)
        requires
            p == a * m,
    ;
    assert(2 * (p * e) == 2 * m * (a * e)) by (nonlinear_arith)
        requires
            p == a * m,
    ;
}

/// From bounds on `s * len^2` to bounds on `s`, for a length `len` that
/// holds `2 * m^2` no more than `slack` times.
proof fn lemma_unit_bounds(s: int, n: int, len: int, m: int, g: int, h: int, slack: int)
    requires
        0 < m,
        0 < len,
        2 * (m * m) <= slack * len,
        len * len <= n <= len * len + 2 * len,
        0 <= g <= 3 * (len * (len - 1)),
        0 <= h <= 3 * ((len - 1) * (len - 1)),
        s * (len * len) == n * (m * m) - 2 * m * g + h,
    ensures
        m * m - 6 * m <= s <= m * m + slack + 3,
{
    let q = len * len;
    assert(0 < q) by (nonlinear_arith)
        requires
            0 < len,
            q == len * len,
    ;
    assert(2 * (len * (m * m)) <= slack * q) by (nonlinear_arith)
        requires
            q == len * len,
            0 < len,
            2 * (m * m) <= slack * len,
    ;
    assert(n * (m * m) <= q * (m * m) + 2 * (len * (m * m))) by (nonlinear_arith)
        requires
            n <= q + 2 * len,
            0 < m,
    ;
    assert(n * (m * m) >= q * (m * m)) by (nonlinear_arith)
        requires
            q <= n,
            0 < m,
    ;
    assert(h <= 3 * q) by (nonlinear_arith)
        requires
            h <= 3 * ((len - 1) * (len - 1)),
            q == len * len,
            0 < len,
    ;
    assert(2 * (m * g) <= 6 * (m * q)) by (nonlinear_arith)
        requires
            0 <= g <= 3 * (len * (len - 1)),
            q == len * len,
            0 < m,
            0 < len,
    ;
    assert(2 * m * g == 2 * (m * g)) by (nonlinear_arith);
    assert(0 <= 2 * (m * g)) by (nonlinear_arith)
        requires
            0 <= g,
            0 < m,
    ;
    assert(s * q <= q * (m * m) + slack * q + 3 * q);
    assert(s * q >= q * (m * m) - 6 * (m * q));
    assert(s <= m * m + slack + 3) by (nonlinear_arith)
        requires
            s * q <= q * (m * m) + slack * q + 3 * q,
            0 < q,
    ;
    assert(s >= m * m - 6 * m) by (nonlinear_arith)
        requires
            s * q >= q * (m * m) - 6 * (m * q),
            0 < q,
    ;
}

/// A vector whose squared length is at least the square of `k` is at least
/// `k` long.
pub proof fn lemma_length_at_least(v: IntVec3, k: int)
    requires
        0 <= k,
        v.norm_squared() >= k * k,
    ensures
        v.length() >= k,
{
    lemma_length(v);
    let len = v.length();
    assert(len >= k) by (nonlinear_arith)
        requires
            v.norm_squared() >= k * k,
            v.norm_squared() < (len + 1) * (len + 1),
            0 <= len,
            0 <= k,
    ;
}

/// A long vector is rescaled to a vector whose length is one within a few
/// millionths.
pub proof fn lemma_rescaled_unit(v: IntVec3)
    requires
        v.length() >= SHORT,
    ensures
        MICRO * MICRO - 6 * MICRO <= v.rescaled().norm_squared() <= MICRO * MICRO + 935,
        v.rescaled().is_unit(),
{
    lemma_length(v);
    let len = v.length();
    let m = MICRO as int;
    let n = v.norm_squared();
    assert(len * len <= n <= len * len + 2 * len) by (nonlinear_arith)
        requires
            len * len <= n < (len + 1) * (len + 1),
    ;
    lemma_component_rounding(v.x, m, len);
    lemma_component_rounding(v.y, m, len);
    lemma_component_rounding(v.z, m, len);
    lemma_rounded_square(v.x, m, len);
    lemma_rounded_square(v.y, m, len);
    lemma_rounded_square(v.z, m, len);
    let r = v.rescaled();
    let ex = remainder_toward_zero(v.x, m, len);
    let ey = remainder_toward_zero(v.y, m, len);
    let ez = remainder_toward_zero(v.z, m, len);
    let g = v.x * ex + v.y * ey + v.z * ez;
    let h = ex * ex + ey * ey + ez * ez;
    let s = r.norm_squared();
    lemma_square_bound(ex, len - 1);
    lemma_square_bound(ey, len - 1);
    lemma_square_bound(ez, len - 1);
    assert(s * (len * len) == (r.x * r.x) * (len * len) + (r.y * r.y) * (len * len) + (r.z * r.z)
        * (len * len)) by (nonlinear_arith)
        requires
            s == r.x * r.x + r.y * r.y + r.z * r.z,
    ;
    assert(n * (m * m) == (v.x * v.x) * (m * m) + (v.y * v.y) * (m * m) + (v.z * v.z) * (m * m))
        by (nonlinear_arith)
        requires
            n == v.x * v.x + v.y * v.y + v.z * v.z,
    ;
    assert(2 * m * g == 2 * m * (v.x * ex) + 2 * m * (v.y * ey) + 2 * m * (v.z * ez))
        by (nonlinear_arith)
        requires
            g == v.x * ex + v.y * ey + v.z * ez,
    ;
    lemma_unit_bounds(s, n, len, m, g, h, 932);
}

/// The square of a number is bounded by the square of a bound on its
/// magnitude.
pub proof fn lemma_square_bound(e: int, b: int)
    requires
        abs_int(e) <= b,
    ensures
        0 <= e * e <= b * b,
{
    assert(0 <= e * e <= b * b) by (nonlinear_arith)
        requires
            -b <= e <= b,
    ;
}

/// The product of two numbers is bounded by the product of bounds on their
/// magnitudes.
pub proof fn lemma_product_bound(e: int, w: int, b: int)
    requires
        abs_int(e) <= b,
    ensures
        abs_int(e * w) <= b * abs_int(w),
{
    assert(-(b * abs_int(w)) <= e * w <= b * abs_int(w)) by (nonlinear_arith)
        requires
            -b <= e <= b,
            abs_int(w) >= 0,
            abs_int(w) == w || abs_int(w) == -w,
    ;
}

/// Rescaling a vector that is at right angles to `w` leaves a vector whose
/// dot product with `w` is at most the sum of the magnitudes of the
/// components of `w`.
pub proof fn lemma_rescaled_orthogonal(v: IntVec3, w: IntVec3)
    requires
        v.dot(w) == 0,
    ensures
        abs_int(v.rescaled().dot(w)) <= w.abs_sum(),
{
    lemma_length(v);
    let len = v.length();
    let m = MICRO as int;
    let r = v.rescaled();
    let d = r.dot(w);
    let big = w.abs_sum();
    if len == 0 {
        assert(d == 0) by (nonlinear_arith)
            requires
                d == r.x * w.x + r.y * w.y + r.z * w.z,
                r.x == 0,
                r.y == 0,
                r.z == 0,
        ;
    } else {
        lemma_component_rounding(v.x, m, len);
        lemma_component_rounding(v.y, m, len);
        lemma_component_rounding(v.z, m, len);
        let ex = remainder_toward_zero(v.x, m, len);
        let ey = remainder_toward_zero(v.y, m, len);
        let ez = remainder_toward_zero(v.z, m, len);
        lemma_product_bound(ex, w.x, len - 1);
        lemma_product_bound(ey, w.y, len - 1);
        lemma_product_bound(ez, w.z, len - 1);
        assert((r.x * len) * w.x == (v.x * w.x) * m - ex * w.x) by (nonlinear_arith)
            requires
                r.x * len == v.x * m - ex,
        ;
        assert((r.y * len) * w.y == (v.y * w.y) * m - ey * w.y) by (nonlinear_arith)
            requires
                r.y * len == v.y * m - ey,
        ;
        assert((r.z * len) * w.z == (v.z * w.z) * m - ez * w.z) by (nonlinear_arith)
            requires
                r.z * len == v.z * m - ez,
        ;
        let (tx, ty, tz) = (r.x * w.x, r.y * w.y, r.z * w.z);
        assert(tx * len == (r.x * len) * w.x) by (nonlinear_arith)
            requires
                tx == r.x * w.x,
        ;
        assert(ty * len == (r.y * len) * w.y) by (nonlinear_arith)
            requires
                ty == r.y * w.y,
        ;
        assert(tz * len == (r.z * len) * w.z) by (nonlinear_arith)
            requires
                tz == r.z * w.z,
        ;
        assert(d * len == tx * len + ty * len + tz * len) by (nonlinear_arith)
            requires
                d == tx + ty + tz,
        ;
        assert((v.x * w.x) * m + (v.y * w.y) * m + (v.z * w.z) * m == 0) by (nonlinear_arith)
            requires
                v.x * w.x + v.y * w.y + v.z * w.z == 0,
        ;
        assert(d * len == -(ex * w.x + ey * w.y + ez * w.z));
        assert((len - 1) * abs_int(w.x) + (len - 1) * abs_int(w.y) + (len - 1) * abs_int(w.z) == (
        len - 1) * big) by (nonlinear_arith)
            requires
                big == abs_int(w.x) + abs_int(w.y) + abs_int(w.z),
        ;
        assert(-big <= d <= big) by (nonlinear_arith)
            requires
                -((len - 1) * big) <= d * len <= (len - 1) * big,
                0 < len,
                0 <= big,
        ;
    }
}

/// A vector that is not zero is stretched to a long one of the same
/// direction.
pub proof fn lemma_stretched(v: IntVec3)
    requires
        !v.is_zero(),
    ensures
        v.stretched().length() >= SHORT,
        v.stretch_factor() == 1 || v.stretch_factor() == STRETCH,
        !v.stretched().is_zero(),
{
    let k = v.stretch_factor();
    let w = v.stretched();
    lemma_norm_squared_nonnegative(w);
    let c = if v.is_short() {
        if v.x != 0 {
            v.x
        } else if v.y != 0 {
            v.y
        } else {
            v.z
        }
    } else {
        if abs_int(v.x) >= SHORT {
            v.x
        } else if abs_int(v.y) >= SHORT {
            v.y
        } else {
            v.z
        }
    };
    let low: int = SHORT as int;
    assert((c * k) * (c * k) >= low * low) by (nonlinear_arith)
        requires
            k == 1 && (c >= low || -c >= low) || k == 2 * low && (c >= 1 || -c >= 1),
            low > 0,
    ;
    lemma_length_at_least(w, low);
}

/// The dot product of a stretched vector is the dot product times the
/// factor.
pub proof fn lemma_stretched_dot(v: IntVec3, w: IntVec3)
    ensures
        v.stretched().dot(w) == v.stretch_factor() * v.dot(w),
{
    let k = v.stretch_factor();
    let (px, py, pz) = (v.x * w.x, v.y * w.y, v.z * w.z);
    assert((v.x * k) * w.x == k * px) by (nonlinear_arith)
        requires
            px == v.x * w.x,
    ;
    assert((v.y * k) * w.y == k * py) by (nonlinear_arith)
        requires
            py == v.y * w.y,
    ;
    assert((v.z * k) * w.z == k * pz) by (nonlinear_arith)
        requires
            pz == v.z * w.z,
    ;
    assert(k * (px + py + pz) == k * px + k * py + k * pz) by (nonlinear_arith);
}

/// The part of component `a` that is lost when a vector is normalised over
/// the length `len`.
pub open spec fn lost(a: int, len: int) -> int {
    remainder_toward_zero(a, MICRO as int, len)
}

/// How a normalised vector comes from the stretched one: each component
/// times the length is the stretched component times one million, less a
/// part that is shorter than the length and points the same way.
pub proof fn lemma_normalized_rounding(v: IntVec3)
    requires
        !v.is_zero(),
    ensures
        ({
            let s = v.stretched();
            let len = s.length();
            let r = v.normalized();
            &&& len >= SHORT
            &&& v.stretch_factor() >= 1
            &&& len * len <= s.norm_squared() < (len + 1) * (len + 1)
            &&& abs_int(s.x) <= len && abs_int(s.y) <= len && abs_int(s.z) <= len
            &&& r.x * len == s.x * MICRO - lost(s.x, len)
            &&& r.y * len == s.y * MICRO - lost(s.y, len)
            &&& r.z * len == s.z * MICRO - lost(s.z, len)
            &&& abs_int(lost(s.x, len)) <= len - 1
            &&& abs_int(lost(s.y, len)) <= len - 1
            &&& abs_int(lost(s.z, len)) <= len - 1
            &&& 0 <= s.x * lost(s.x, len)
            &&& 0 <= s.y * lost(s.y, len)
            &&& 0 <= s.z * lost(s.z, len)
            &&& abs_int(r.x) <= MICRO && abs_int(r.y) <= MICRO && abs_int(r.z) <= MICRO
        }),
{
    let s = v.stretched();
    let len = s.length();
    lemma_stretched(v);
    lemma_length(s);
    lemma_component_rounding(s.x, MICRO as int, len);
    lemma_component_rounding(s.y, MICRO as int, len);
    lemma_component_rounding(s.z, MICRO as int, len);
}

/// The parts of the components that are lost when `v` is normalised.
pub open spec fn lost_vector(v: IntVec3) -> IntVec3 {
    let s = v.stretched();
    let len = s.length();
    IntVec3 { x: lost(s.x, len), y: lost(s.y, len), z: lost(s.z, len) }
}

/// The dot product of `r` and a normalised vector, times the length of the
/// stretched vector, is the dot product with the stretched vector times one
/// million, less the dot product with the lost parts, which is small.
pub proof fn lemma_dot_with_normalized(r: IntVec3, v: IntVec3)
    requires
        !v.is_zero(),
    ensures
        r.dot(v.normalized()) * v.stretched().length() == MICRO * r.dot(v.stretched()) - r.dot(
            lost_vector(v),
        ),
        abs_int(r.dot(lost_vector(v))) <= r.abs_sum() * (v.stretched().length() - 1),
{
    let s = v.stretched();
    let len = s.length();
    let u = v.normalized();
    let e = lost_vector(v);
    let m = MICRO as int;
    lemma_normalized_rounding(v);
    lemma_term_with_normalized(r.x, u.x, s.x, e.x, len, m);
    lemma_term_with_normalized(r.y, u.y, s.y, e.y, len, m);
    lemma_term_with_normalized(r.z, u.z, s.z, e.z, len, m);
    let (tx, ty, tz) = (r.x * u.x, r.y * u.y, r.z * u.z);
    assert((tx + ty + tz) * len == tx * len + ty * len + tz * len) by (nonlinear_arith);
    let (px, py, pz) = (r.x * s.x, r.y * s.y, r.z * s.z);
    assert(m * (px + py + pz) == m * px + m * py + m * pz) by (nonlinear_arith);
    lemma_product_bound(e.x, r.x, len - 1);
    lemma_product_bound(e.y, r.y, len - 1);
    lemma_product_bound(e.z, r.z, len - 1);
    assert(e.x * r.x == r.x * e.x) by (nonlinear_arith);
    assert(e.y * r.y == r.y * e.y) by (nonlinear_arith);
    assert(e.z * r.z == r.z * e.z) by (nonlinear_arith);
    assert((len - 1) * abs_int(r.x) + (len - 1) * abs_int(r.y) + (len - 1) * abs_int(r.z)
        == r.abs_sum() * (len - 1)) by (nonlinear_arith)
        requires
            r.abs_sum() == abs_int(r.x) + abs_int(r.y) + abs_int(r.z),
    ;
}

/// One term of the dot product with a normalised vector.
proof fn lemma_term_with_normalized(r: int, u: int, s: int, e: int, len: int, m: int)
    requires
        u * len == s * m - e,
    ensures
        (r * u) * len == m * (r * s) - r * e,
{
    assert((r * u) * len == m * (r * s) - r * e) by (nonlinear_arith)
        requires
            u * len == s * m - e,
    ;
}

/// A number whose product with a positive `len` is within `bound * len` is
/// itself within `bound`.
pub proof fn lemma_bound_of_quotient(x: int, len: int, bound: int)
    requires
        0 < len,
        -(bound * len) <= x * len <= bound * len,
    ensures
        -bound <= x <= bound,
{
    assert(-bound <= x <= bound) by (nonlinear_arith)
        requires
            0 < len,
            -(bound * len) <= x * len <= bound * len,
    ;
}

/// The sum of the magnitudes of the components is at most the length times
/// the root of three.
pub proof fn lemma_abs_sum_bound(v: IntVec3)
    ensures
        v.abs_sum() * v.abs_sum() <= 3 * v.norm_squared(),
        v.abs_sum() >= 0,
{
    let (a, b, c) = (abs_int(v.x), abs_int(v.y), abs_int(v.z));
    assert(a * a == v.x * v.x) by (nonlinear_arith)
        requires
            a == v.x || a == -v.x,
    ;
    assert(b * b == v.y * v.y) by (nonlinear_arith)
        requires
            b == v.y || b == -v.y,
    ;
    assert(c * c == v.z * v.z) by (nonlinear_arith)
        requires
            c == v.z || c == -v.z,
    ;
    assert(2 * (a * b) <= a * a + b * b) by (nonlinear_arith);
    assert(2 * (b * c) <= b * b + c * c) by (nonlinear_arith);
    assert(2 * (c * a) <= c * c + a * a) by (nonlinear_arith);
    assert((a + b + c) * (a + b + c) == a * a + b * b + c * c + 2 * (a * b) + 2 * (b * c) + 2 * (c
        * a)) by (nonlinear_arith);
}

/// No component of a normalised vector exceeds one.
pub proof fn lemma_normalized_components(v: IntVec3)
    ensures
        abs_int(v.normalized().x) <= MICRO,
        abs_int(v.normalized().y) <= MICRO,
        abs_int(v.normalized().z) <= MICRO,
{
    lemma_rescaled_components(v.stretched());
}

/// Every vector that is not zero is normalised to a vector whose length is
/// one within a few millionths.
pub proof fn lemma_normalized_unit(v: IntVec3)
    requires
        !v.is_zero(),
    ensures
        MICRO * MICRO - 6 * MICRO <= v.normalized().norm_squared() <= MICRO * MICRO + 935,
        v.normalized().is_unit(),
{
    lemma_stretched(v);
    lemma_rescaled_unit(v.stretched());
}

/// Normalising a vector that is at right angles to `w` leaves a vector whose
/// dot product with `w` is at most the sum of the magnitudes of the
/// components of `w`.
pub proof fn lemma_normalized_orthogonal(v: IntVec3, w: IntVec3)
    requires
        v.dot(w) == 0,
    ensures
        abs_int(v.normalized().dot(w)) <= w.abs_sum(),
{
    lemma_stretched_dot(v, w);
    assert(v.stretch_factor() * v.dot(w) == 0) by (nonlinear_arith)
        requires
            v.dot(w) == 0,
    ;
    lemma_rescaled_orthogonal(v.stretched(), w);
}

impl Vec3 {
    /// The same vector with wide components.
    pub fn widen(&self) -> (r: WideVec3)
        ensures
            r@ == self@,
    {
        WideVec3 { x: self.x as i64, y: self.y as i64, z: self.z as i64 }
    }

    /// The cross product with `other`, exact.
    pub fn cross(&self, other: &Vec3) -> (r: WideVec3)
        ensures
            r@ == self@.cross(other@),
    {
        WideVec3 {
            x: minor(self.y, other.z, self.z, other.y),
            y: minor(self.z, other.x, self.x, other.z),
            z: minor(self.x, other.y, self.y, other.x),
        }
    }
}

/// `a * b - c * d`, which always fits.
fn minor(a: i32, b: i32, c: i32, d: i32) -> (r: i64)
    ensures
        r == a * b - c * d,
{
    assert(-0x4000_0000_0000_0000 < a * b <= 0x4000_0000_0000_0000) by (nonlinear_arith)
        requires
            -0x8000_0000 <= a < 0x8000_0000,
            -0x8000_0000 <= b < 0x8000_0000,
    ;
    assert(-0x4000_0000_0000_0000 < c * d <= 0x4000_0000_0000_0000) by (nonlinear_arith)
        requires
            -0x8000_0000 <= c < 0x8000_0000,
            -0x8000_0000 <= d < 0x8000_0000,
    ;
    let left: i128 = (a as i128) * (b as i128);
    let right: i128 = (c as i128) * (d as i128);
    (left - right) as i64
}

/// The square of `v`.
fn square(v: i64) -> (r: u128)
    ensures
        r == v * v,
        r <= 0x4000_0000_0000_0000_0000_0000_0000_0000,
{
    assert(0 <= v * v <= 0x4000_0000_0000_0000_0000_0000_0000_0000) by (nonlinear_arith)
        requires
            -0x8000_0000_0000_0000 <= v < 0x8000_0000_0000_0000,
    ;
    let wide: i128 = (v as i128) * (v as i128);
    wide as u128
}

/// `v` times one million over `len`, rounded toward zero.
fn unit_component(v: i64, len: u64) -> (r: i32)
    requires
        0 < len,
        abs_int(v as int) <= len,
    ensures
        r == div_toward_zero(v * MICRO, len as int),
{
    proof {
        lemma_component_rounding(v as int, MICRO as int, len as int);
    }
    if v >= 0 {
        let scaled: u128 = (v as u128) * 1_000_000;
        (scaled / (len as u128)) as i32
    } else {
        let scaled: u128 = ((-(v as i128)) as u128) * 1_000_000;
        assert(scaled == -(v * MICRO));
        -((scaled / (len as u128)) as i32)
    }
}

impl WideVec3 {
    /// The vector of the same direction whose length is one, counted in
    /// millionths.
    pub fn normalize(&self) -> (r: Vec3)
        ensures
            r@ == self@.normalized(),
            -MICRO <= r.x <= MICRO,
            -MICRO <= r.y <= MICRO,
            -MICRO <= r.z <= MICRO,
    {
        let long: WideVec3 = self.stretch();
        let n: u128 = square(long.x) + square(long.y) + square(long.z);
        let len: u64 = isqrt(n);
        proof {
            lemma_length(long@);
            lemma_isqrt_unique(n as int, len as int, long@.length());
            lemma_rescaled_components(long@);
        }
        if len == 0 {
            Vec3 { x: 0, y: 0, z: 0 }
        } else {
            Vec3 {
                x: unit_component(long.x, len),
                y: unit_component(long.y, len),
                z: unit_component(long.z, len),
            }
        }
    }

    /// The vector of the same direction that is long enough to be
    /// normalised.
    fn stretch(&self) -> (r: WideVec3)
        ensures
            r@ == self@.stretched(),
    {
        let short: bool = -SHORT < self.x && self.x < SHORT && -SHORT < self.y && self.y < SHORT
            && -SHORT < self.z && self.z < SHORT;
        if short {
            WideVec3 { x: self.x * STRETCH, y: self.y * STRETCH, z: self.z * STRETCH }
        } else {
            WideVec3 { x: self.x, y: self.y, z: self.z }
        }
    }
}

} // verus!
