//! The frame of a camera: the look direction and the directions to its right
//! and above it, derived from yaw, pitch and a reference for "up".

use vstd::prelude::*;
use crate::fixed::{abs_int, div_toward_zero, is_isqrt, lemma_isqrt_unique, MICRO};
use crate::trig::{
    cos_spec, lemma_cos_even, lemma_quadrant_radians_bounds, lemma_quarter_turns,
    lemma_sin_cos_not_both_small, lemma_sin_cos_quadrant, lemma_sin_cos_range, lemma_sin_odd,
    lemma_sin_quadrant_bounds, quadrant_angle, sin_spec, NANO, QUARTER_TURN,
};
use vstd::arithmetic::div_mod::lemma_div_multiples_vanish;
use crate::vec3::{
    lemma_cross_norm, lemma_cross_orthogonal, lemma_dot_symmetric, lemma_length,
    lemma_norm_squared_nonnegative, lemma_normalized_components, lemma_normalized_orthogonal,
    lemma_normalized_unit, lemma_square_bound, lemma_zero_norm, IntVec3,
};

verus! {

/// Three vectors of mathematical integers: what a frame stands for.
pub struct Frame {
    pub front: IntVec3,
    pub right: IntVec3,
    pub up: IntVec3,
}

impl Frame {
    /// Whether the three vectors are one long within six millionths, and
    /// their dot products nothing within three millionths: what rounding
    /// each component toward zero leaves of an orthonormal frame.
    pub open spec fn is_tight(self) -> bool {
        &&& MICRO * MICRO - 6 * MICRO <= self.front.norm_squared() <= MICRO * MICRO + 935
        &&& MICRO * MICRO - 6 * MICRO <= self.right.norm_squared() <= MICRO * MICRO + 935
        &&& MICRO * MICRO - 6 * MICRO <= self.up.norm_squared() <= MICRO * MICRO + 935
        &&& abs_int(self.front.dot(self.right)) <= 3 * MICRO
        &&& abs_int(self.front.dot(self.up)) <= 3 * MICRO
        &&& abs_int(self.right.dot(self.up)) <= 3 * MICRO
    }

    /// Whether the three vectors are one long and at right angles to each
    /// other, each within a hundred-thousandth.
    pub open spec fn is_orthonormal(self) -> bool {
        &&& self.front.is_unit()
        &&& self.right.is_unit()
        &&& self.up.is_unit()
        &&& self.front.is_orthogonal_to(self.right)
        &&& self.front.is_orthogonal_to(self.up)
        &&& self.right.is_orthogonal_to(self.up)
    }
}

/// The look direction before normalisation, for the given yaw and pitch.
pub open spec fn direction_of(yaw: int, pitch: int) -> IntVec3 {
    IntVec3 {
        x: cos_spec(yaw) * cos_spec(pitch),
        y: sin_spec(pitch) * NANO,
        z: sin_spec(yaw) * cos_spec(pitch),
    }
}

/// The frame that belongs to the given yaw, pitch and `world_up`.
pub open spec fn frame_of(yaw: int, pitch: int, world_up: IntVec3) -> Frame {
    let front = direction_of(yaw, pitch).normalized();
    let right = front.cross(world_up).normalized();
    let up = right.cross(front).normalized();
    Frame { front, right, up }
}

/// Whether the frame of the given orientation is well defined: the look
/// direction and `world_up` are neither parallel nor nothing, so that their
/// cross product is not the zero vector.
pub open spec fn is_nondegenerate(yaw: int, pitch: int, world_up: IntVec3) -> bool {
    !direction_of(yaw, pitch).normalized().cross(world_up).is_zero()
}

/// A `world_up` along the y axis, `height` long.
pub open spec fn vertical(height: int) -> IntVec3 {
    IntVec3 { x: 0, y: height, z: 0 }
}

/// The product of two numbers of at least the given magnitudes has at least
/// the product of the magnitudes.
proof fn lemma_product_magnitude(a: int, b: int, low_a: int, low_b: int)
    requires
        abs_int(a) >= low_a >= 0,
        abs_int(b) >= low_b >= 0,
    ensures
        abs_int(a * b) >= low_a * low_b,
        (a * b) * (a * b) >= (low_a * low_b) * (low_a * low_b),
{
    let p = a * b;
    let low = low_a * low_b;
    assert(abs_int(p) >= low && low >= 0) by (nonlinear_arith)
        requires
            p == a * b,
            low == low_a * low_b,
            a >= low_a || -a >= low_a,
            b >= low_b || -b >= low_b,
            low_a >= 0,
            low_b >= 0,
            abs_int(p) == p || abs_int(p) == -p,
            abs_int(p) >= p,
            abs_int(p) >= -p,
    ;
    assert(p * p >= low * low) by (nonlinear_arith)
        requires
            p >= low || -p >= low,
            low >= 0,
    ;
}

/// The product of two numbers of at most the given magnitudes has at most
/// the product of the magnitudes.
pub proof fn lemma_product_range(a: int, b: int, high_a: int, high_b: int)
    requires
        abs_int(a) <= high_a,
        abs_int(b) <= high_b,
    ensures
        abs_int(a * b) <= high_a * high_b,
        (a * b) * (a * b) <= (high_a * high_b) * (high_a * high_b),
{
    let p = a * b;
    let high = high_a * high_b;
    assert(-high <= p <= high) by (nonlinear_arith)
        requires
            p == a * b,
            high == high_a * high_b,
            -high_a <= a <= high_a,
            -high_b <= b <= high_b,
    ;
    assert(p * p <= high * high) by (nonlinear_arith)
        requires
            -high <= p <= high,
    ;
}

/// The look direction before normalisation is never short, whatever the
/// angles: sine and cosine of one angle are never both small.
pub proof fn lemma_direction_long(yaw: int, pitch: int)
    ensures
        direction_of(yaw, pitch).norm_squared() >= MICRO * MICRO,
        !direction_of(yaw, pitch).is_zero(),
        abs_int(direction_of(yaw, pitch).x) <= NANO * NANO,
        abs_int(direction_of(yaw, pitch).y) <= NANO * NANO,
        abs_int(direction_of(yaw, pitch).z) <= NANO * NANO,
{
    let d = direction_of(yaw, pitch);
    let (cy, sy) = (cos_spec(yaw), sin_spec(yaw));
    let (cp, sp) = (cos_spec(pitch), sin_spec(pitch));
    lemma_sin_cos_range(yaw);
    lemma_sin_cos_range(pitch);
    lemma_sin_cos_not_both_small(yaw);
    lemma_sin_cos_not_both_small(pitch);
    lemma_norm_squared_nonnegative(d);
    lemma_product_range(cy, cp, NANO as int, NANO as int);
    lemma_product_range(sp, NANO as int, NANO as int, NANO as int);
    lemma_product_range(sy, cp, NANO as int, NANO as int);
    let low: int = 450_000_000;
    if abs_int(sp) >= low {
        lemma_product_magnitude(sp, NANO as int, low, NANO as int);
    } else if abs_int(cy) >= low {
        lemma_product_magnitude(cy, cp, low, low);
    } else {
        lemma_product_magnitude(sy, cp, low, low);
    }
}

/// The frame of a well-defined orientation is orthonormal: each vector is
/// one long and each pair at right angles, within a hundred-thousandth. Its
/// `right` is at right angles to `world_up` as well.
pub proof fn lemma_frame_orthonormal(yaw: int, pitch: int, world_up: IntVec3)
    requires
        is_nondegenerate(yaw, pitch, world_up),
    ensures
        frame_of(yaw, pitch, world_up).is_orthonormal(),
        frame_of(yaw, pitch, world_up).is_tight(),
        abs_int(frame_of(yaw, pitch, world_up).right.dot(world_up)) <= world_up.abs_sum(),
{
    let d = direction_of(yaw, pitch);
    let front = d.normalized();
    let across = front.cross(world_up);
    let right = across.normalized();
    let above = right.cross(front);
    let up = above.normalized();
    let m = MICRO as int;
    lemma_direction_long(yaw, pitch);
    lemma_normalized_unit(d);
    lemma_normalized_components(d);
    lemma_normalized_unit(across);
    lemma_normalized_components(across);
    lemma_cross_orthogonal(front, world_up);
    lemma_normalized_orthogonal(across, front);
    lemma_normalized_orthogonal(across, world_up);
    lemma_dot_symmetric(front, right);
    let a = right.norm_squared();
    let b = front.norm_squared();
    let c = right.dot(front);
    lemma_cross_norm(right, front);
    assert(a * b - c * c >= m * m) by (nonlinear_arith)
        requires
            a >= 999_994_000_000,
            b >= 999_994_000_000,
            -3_000_000 <= c <= 3_000_000,
            m == 1_000_000,
    ;
    lemma_zero_norm(above);
    lemma_normalized_unit(above);
    lemma_cross_orthogonal(right, front);
    lemma_normalized_orthogonal(above, right);
    lemma_normalized_orthogonal(above, front);
    lemma_dot_symmetric(front, up);
    lemma_dot_symmetric(right, up);
}

/// With the pitch no more than 89 degrees from level the look direction is
/// never upright: its x or its z component is at least two thousandths, and
/// its y component short of one.
pub proof fn lemma_constrained_front_slanted(yaw: int, pitch: int)
    requires
        -89_000_000 <= pitch <= 89_000_000,
    ensures
        abs_int(direction_of(yaw, pitch).normalized().x) >= 2_000 || abs_int(
            direction_of(yaw, pitch).normalized().z,
        ) >= 2_000,
        abs_int(direction_of(yaw, pitch).normalized().y) <= 999_998,
{
    let d = direction_of(yaw, pitch);
    let (cy, sy) = (cos_spec(yaw), sin_spec(yaw));
    let cp = cos_spec(pitch);
    let q = quadrant_angle(pitch);
    lemma_sin_cos_quadrant(pitch);
    assert(q == abs_int(pitch));
    lemma_sin_quadrant_bounds(QUARTER_TURN - q);
    lemma_quadrant_radians_bounds(QUARTER_TURN - q);
    let low_pitch: int = 10_000_000;
    assert(abs_int(cp) >= low_pitch);
    lemma_sin_cos_not_both_small(yaw);
    lemma_direction_long(yaw, pitch);
    let low: int = 450_000_000;
    if abs_int(cy) >= low {
        lemma_product_magnitude(cy, cp, low, low_pitch);
    } else {
        lemma_product_magnitude(sy, cp, low, low_pitch);
    }
    assert(!d.is_short());
    assert(d.stretched() == d) by {
        assert(d.x * 1 == d.x && d.y * 1 == d.y && d.z * 1 == d.z);
    }
    lemma_length(d);
    let len = d.length();
    let n = NANO as int;
    let high = n * n;
    lemma_square_bound(d.x, high);
    lemma_square_bound(d.y, high);
    lemma_square_bound(d.z, high);
    assert(0 < len < 2 * high) by (nonlinear_arith)
        requires
            0 <= len,
            len * len <= d.norm_squared(),
            d.norm_squared() < (len + 1) * (len + 1),
            d.norm_squared() >= 1,
            d.norm_squared() <= 3 * (high * high),
            high > 0,
    ;
    if abs_int(cy) >= low {
        lemma_component_survives(d.x, len, low * low_pitch, 2_000);
    } else {
        lemma_component_survives(d.z, len, low * low_pitch, 2_000);
    }
    let front = d.normalized();
    lemma_normalized_unit(d);
    let (fx, fy, fz) = (front.x, front.y, front.z);
    assert(-999_998 <= fy <= 999_998) by (nonlinear_arith)
        requires
            fx * fx + fy * fy + fz * fz <= 1_000_000_000_935,
            fx >= 2_000 || -fx >= 2_000 || fz >= 2_000 || -fz >= 2_000,
    ;
}

/// With `world_up` along the y axis and not nothing, and the pitch no more
/// than 89 degrees from level, the frame is well defined for every yaw.
pub proof fn lemma_constrained_is_nondegenerate(yaw: int, pitch: int, height: int)
    requires
        -89_000_000 <= pitch <= 89_000_000,
        height != 0,
    ensures
        is_nondegenerate(yaw, pitch, vertical(height)),
{
    let front = direction_of(yaw, pitch).normalized();
    lemma_constrained_front_slanted(yaw, pitch);
    let across = front.cross(vertical(height));
    assert(across.x == -(front.z * height));
    assert(across.z == front.x * height);
    if front.x != 0 {
        lemma_nonzero_product(front.x, height);
    } else {
        lemma_nonzero_product(front.z, height);
    }
}

/// A product of two numbers that are not nothing is not nothing.
proof fn lemma_nonzero_product(a: int, b: int)
    requires
        a != 0,
        b != 0,
    ensures
        a * b != 0,
{
    assert(a * b != 0) by (nonlinear_arith)
        requires
            a != 0,
            b != 0,
    ;
}

/// A component that is long against the length stays long when the vector
/// is rescaled.
proof fn lemma_component_survives(a: int, len: int, low: int, least: int)
    requires
        abs_int(a) >= low,
        0 < len,
        0 <= least,
        low * MICRO >= least * len,
    ensures
        abs_int(div_toward_zero(a * MICRO, len)) >= least,
{
    let m = MICRO as int;
    let p = abs_int(a) * m;
    assert(p >= least * len) by (nonlinear_arith)
        requires
            p == abs_int(a) * m,
            abs_int(a) >= low,
            low * m >= least * len,
            m > 0,
    ;
    assert(p / len >= least) by (nonlinear_arith)
        requires
            p >= least * len,
            0 < len,
    ;
    if a >= 0 {
        assert(a * m == p);
        assert(a * m >= 0);
    } else {
        assert(-(a * m) == p) by (nonlinear_arith)
            requires
                p == (-a) * m,
        ;
        if least > 0 {
            assert(a * m < 0);
        }
    }
}

/// For every yaw and every pitch no more than 89 degrees from level, the
/// frame over a `world_up` along the y axis is orthonormal: each vector is one
/// long and each pair at right angles, within a hundred-thousandth.
pub proof fn lemma_constrained_frame_orthonormal(yaw: int, pitch: int, height: int)
    requires
        -89_000_000 <= pitch <= 89_000_000,
        height != 0,
    ensures
        is_nondegenerate(yaw, pitch, vertical(height)),
        frame_of(yaw, pitch, vertical(height)).is_orthonormal(),
{
    lemma_constrained_is_nondegenerate(yaw, pitch, height);
    lemma_frame_orthonormal(yaw, pitch, vertical(height));
}

/// A vector along one axis is rescaled to the unit vector of that axis.
proof fn lemma_rescaled_along_axis(v: IntVec3)
    requires
        v.x != 0 && v.y == 0 && v.z == 0 || v.x == 0 && v.y != 0 && v.z == 0 || v.x == 0 && v.y
            == 0 && v.z != 0,
    ensures
        v.rescaled() == (IntVec3 {
            x: signum(v.x) * MICRO,
            y: signum(v.y) * MICRO,
            z: signum(v.z) * MICRO,
        }),
{
    let c = v.x + v.y + v.z;
    let len = abs_int(c);
    let m = MICRO as int;
    assert(v.norm_squared() == c * c) by (nonlinear_arith)
        requires
            v.norm_squared() == v.x * v.x + v.y * v.y + v.z * v.z,
            c == v.x + v.y + v.z,
            v.x == 0 && v.y == 0 || v.x == 0 && v.z == 0 || v.y == 0 && v.z == 0,
    ;
    assert(is_isqrt(c * c, len)) by (nonlinear_arith)
        requires
            len == c || len == -c,
            len >= 0,
    ;
    lemma_length(v);
    lemma_isqrt_unique(c * c, len, v.length());
    assert(0 * m == 0);
    assert(0int / len == 0);
    if c > 0 {
        lemma_div_multiples_vanish(m, c);
    } else {
        lemma_div_multiples_vanish(m, -c);
        assert(-(c * m) == (-c) * m) by (nonlinear_arith);
        assert(c * m < 0) by (nonlinear_arith)
            requires
                c < 0,
                m > 0,
        ;
    }
}

/// A vector along one axis is normalised to the unit vector of that axis.
pub proof fn lemma_normalized_along_axis(v: IntVec3)
    requires
        v.x != 0 && v.y == 0 && v.z == 0 || v.x == 0 && v.y != 0 && v.z == 0 || v.x == 0 && v.y
            == 0 && v.z != 0,
    ensures
        v.normalized() == (IntVec3 {
            x: signum(v.x) * MICRO,
            y: signum(v.y) * MICRO,
            z: signum(v.z) * MICRO,
        }),
{
    let k = v.stretch_factor();
    let w = v.stretched();
    assert(signum(w.x) == signum(v.x) && signum(w.y) == signum(v.y) && signum(w.z) == signum(v.z))
        by (nonlinear_arith)
        requires
            k > 0,
            w.x == v.x * k,
            w.y == v.y * k,
            w.z == v.z * k,
    ;
    lemma_rescaled_along_axis(w);
}

/// The sign of an integer: one, nothing, or minus one.
pub open spec fn signum(v: int) -> int {
    if v > 0 {
        1
    } else if v < 0 {
        -1
    } else {
        0
    }
}

/// A camera that is turned a quarter turn to the left of the x axis and
/// level, over a `world_up` of length one along the y axis, looks along the
/// negative z axis, with the x axis to its right and the y axis above.
pub proof fn lemma_default_frame()
    ensures
        frame_of(-90_000_000, 0, vertical(MICRO as int)) == (Frame {
            front: IntVec3 { x: 0, y: 0, z: -MICRO },
            right: IntVec3 { x: MICRO as int, y: 0, z: 0 },
            up: IntVec3 { x: 0, y: MICRO as int, z: 0 },
        }),
{
    let yaw: int = -90_000_000;
    let m = MICRO as int;
    let k = NANO as int;
    lemma_quarter_turns();
    lemma_sin_odd(QUARTER_TURN as int);
    lemma_cos_even(QUARTER_TURN as int);
    assert(cos_spec(yaw) == 0);
    assert(sin_spec(yaw) == -k);
    let d = direction_of(yaw, 0);
    assert(d.x == 0 && d.y == 0 && d.z == -(k * k) && d.z < 0) by (nonlinear_arith)
        requires
            d.x == 0 * k,
            d.y == 0 * NANO,
            d.z == (-k) * k,
            k >= 1,
    ;
    lemma_normalized_along_axis(d);
    let front = d.normalized();
    assert(front == IntVec3 { x: 0, y: 0, z: -m });
    let across = front.cross(vertical(m));
    assert(across.x == m * m && across.y == 0 && across.z == 0) by (nonlinear_arith)
        requires
            across.x == 0 * 0 - (-m) * m,
            across.y == (-m) * 0 - 0 * 0,
            across.z == 0 * m - 0 * 0,
    ;
    lemma_normalized_along_axis(across);
    let right = across.normalized();
    assert(right == IntVec3 { x: m, y: 0, z: 0 });
    let above = right.cross(front);
    assert(above.x == 0 && above.y == m * m && above.z == 0) by (nonlinear_arith)
        requires
            above.x == 0 * (-m) - 0 * 0,
            above.y == 0 * 0 - m * (-m),
            above.z == m * 0 - 0 * 0,
    ;
    lemma_normalized_along_axis(above);
}

} // verus!
