//! The handedness of the frame: `up` is the cross product of `right` and
//! `front`, `right` that of `front` and `up`, `right` is at right angles to
//! `world_up`, and `up` lies on the side of `world_up`.

use vstd::prelude::*;
use crate::fixed::{abs_int, MICRO};
use crate::frame::{
    direction_of, frame_of, is_nondegenerate, lemma_constrained_front_slanted,
    lemma_direction_long, lemma_frame_orthonormal, lemma_product_range, vertical,
};
use crate::vec3::{
    lemma_abs_sum_bound, lemma_bound_of_quotient, lemma_cross_norm, lemma_cross_orthogonal,
    lemma_dot_symmetric, lemma_dot_with_normalized, lemma_length, lemma_length_at_least,
    lemma_norm_squared_nonnegative, lemma_normalized_orthogonal, lemma_normalized_rounding,
    lemma_normalized_unit, lemma_stretched_dot, lemma_zero_norm, lost_vector, IntVec3,
};

verus! {

/// The sum of the magnitudes of a vector of length about one is at most
/// the root of three.
proof fn lemma_unit_abs_sum(v: IntVec3)
    requires
        v.norm_squared() <= MICRO * MICRO + 935,
    ensures
        0 <= v.abs_sum() <= 1_732_050,
{
    lemma_abs_sum_bound(v);
    let s = v.abs_sum();
    assert(s <= 1_732_050) by (nonlinear_arith)
        requires
            s * s <= 3 * 1_000_000_000_935,
            s >= 0,
    ;
}

/// A stretched vector has the squared length of the vector times the square
/// of the factor, and the magnitudes of the vector times the factor.
proof fn lemma_stretched_norm(v: IntVec3)
    ensures
        v.stretched().norm_squared() == (v.stretch_factor() * v.stretch_factor())
            * v.norm_squared(),
        v.stretched().abs_sum() == v.stretch_factor() * v.abs_sum(),
{
    let k = v.stretch_factor();
    assert(k >= 1);
    assert((v.x * k) * (v.x * k) == (k * k) * (v.x * v.x)) by (nonlinear_arith);
    assert((v.y * k) * (v.y * k) == (k * k) * (v.y * v.y)) by (nonlinear_arith);
    assert((v.z * k) * (v.z * k) == (k * k) * (v.z * v.z)) by (nonlinear_arith);
    assert((k * k) * (v.x * v.x + v.y * v.y + v.z * v.z) == (k * k) * (v.x * v.x) + (k * k) * (v.y
        * v.y) + (k * k) * (v.z * v.z)) by (nonlinear_arith);
    assert(abs_int(v.x * k) == k * abs_int(v.x)) by (nonlinear_arith)
        requires
            k >= 1,
    ;
    assert(abs_int(v.y * k) == k * abs_int(v.y)) by (nonlinear_arith)
        requires
            k >= 1,
    ;
    assert(abs_int(v.z * k) == k * abs_int(v.z)) by (nonlinear_arith)
        requires
            k >= 1,
    ;
    assert(k * (abs_int(v.x) + abs_int(v.y) + abs_int(v.z)) == k * abs_int(v.x) + k * abs_int(v.y)
        + k * abs_int(v.z)) by (nonlinear_arith);
}

/// `right` is at right angles to the direction of `world_up`, within a
/// hundred-thousandth.
pub proof fn lemma_right_across_world_up(yaw: int, pitch: int, world_up: IntVec3)
    requires
        is_nondegenerate(yaw, pitch, world_up),
    ensures
        frame_of(yaw, pitch, world_up).right.is_orthogonal_to(world_up.normalized()),
{
    let frame = frame_of(yaw, pitch, world_up);
    let front = frame.front;
    let right = frame.right;
    let m = MICRO as int;
    lemma_frame_orthonormal(yaw, pitch, world_up);
    assert(!world_up.is_zero()) by {
        if world_up.is_zero() {
            assert(front.cross(world_up).is_zero()) by (nonlinear_arith)
                requires
                    world_up.x == 0 && world_up.y == 0 && world_up.z == 0,
                    front.cross(world_up).x == front.y * world_up.z - front.z * world_up.y,
                    front.cross(world_up).y == front.z * world_up.x - front.x * world_up.z,
                    front.cross(world_up).z == front.x * world_up.y - front.y * world_up.x,
            ;
        }
    }
    let s = world_up.stretched();
    let len = s.length();
    let k = world_up.stretch_factor();
    let unit = world_up.normalized();
    lemma_normalized_rounding(world_up);
    lemma_dot_with_normalized(right, world_up);
    lemma_stretched_dot(world_up, right);
    lemma_dot_symmetric(right, s);
    lemma_dot_symmetric(right, world_up);
    lemma_stretched_norm(world_up);
    let p = right.dot(world_up);
    let big = world_up.abs_sum();
    // The dot product with the stretched vector is at most three lengths.
    assert(abs_int(k * p) <= 3 * len) by (nonlinear_arith)
        requires
            -big <= p <= big,
            k >= 1,
            k * big <= 3 * len,
    ;
    let first = m * right.dot(s);
    assert(abs_int(first) <= m * (3 * len)) by (nonlinear_arith)
        requires
            first == m * (k * p),
            abs_int(k * p) <= 3 * len,
            m > 0,
    ;
    lemma_normalized_unit(front.cross(world_up));
    lemma_unit_abs_sum(right);
    let second = right.dot(lost_vector(world_up));
    assert(abs_int(second) <= (3 * m) * len) by (nonlinear_arith)
        requires
            abs_int(second) <= right.abs_sum() * (len - 1),
            0 <= right.abs_sum() <= 3 * m,
            len >= 1,
    ;
    let x = right.dot(unit);
    assert(-((6 * m) * len) <= x * len <= (6 * m) * len) by (nonlinear_arith)
        requires
            x * len == first - second,
            abs_int(first) <= m * (3 * len),
            abs_int(second) <= (3 * m) * len,
    ;
    lemma_bound_of_quotient(x, len, 6 * m);
}

/// `(p * q) * w` in two groupings, and the product of a difference.
proof fn lemma_regroup(p: int, q: int, w: int)
    ensures
        (p * q) * w == p * (q * w),
{
    assert((p * q) * w == p * (q * w)) by (nonlinear_arith);
}

/// The product of a difference, from either side.
proof fn lemma_difference(p: int, q: int, w: int)
    ensures
        (p - q) * w == p * w - q * w,
        w * (p - q) == w * p - w * q,
{
    assert((p - q) * w == p * w - q * w) by (nonlinear_arith);
    assert(w * (p - q) == w * p - w * q) by (nonlinear_arith);
}

/// The triple product: `(r x f) . w` is `r . (f x w)`.
proof fn lemma_scalar_triple(r: IntVec3, f: IntVec3, w: IntVec3)
    ensures
        r.cross(f).dot(w) == r.dot(f.cross(w)),
{
    lemma_difference(r.y * f.z, r.z * f.y, w.x);
    lemma_difference(r.z * f.x, r.x * f.z, w.y);
    lemma_difference(r.x * f.y, r.y * f.x, w.z);
    lemma_difference(f.y * w.z, f.z * w.y, r.x);
    lemma_difference(f.z * w.x, f.x * w.z, r.y);
    lemma_difference(f.x * w.y, f.y * w.x, r.z);
    lemma_regroup(r.y, f.z, w.x);
    lemma_regroup(r.z, f.y, w.x);
    lemma_regroup(r.z, f.x, w.y);
    lemma_regroup(r.x, f.z, w.y);
    lemma_regroup(r.x, f.y, w.z);
    lemma_regroup(r.y, f.x, w.z);
}

/// Whether the look direction and `world_up` are far enough from parallel
/// for the side of `up` to be told: their cross product, counted in
/// million-millionths, is longer than the sum of the magnitudes of the
/// components of `world_up` by a thousandth. For a `world_up` of length one
/// that is an angle of one to two millionths of a radian, about what a
/// component of a direction can hold.
pub open spec fn is_well_apart(yaw: int, pitch: int, world_up: IntVec3) -> bool {
    let across = direction_of(yaw, pitch).normalized().cross(world_up);
    &&& !world_up.is_zero()
    &&& 1_000 * across.length() >= 1_001 * world_up.abs_sum() + 1_000
}

/// With `world_up` along the y axis and not nothing, and the pitch no more
/// than 89 degrees from level, the look direction and `world_up` are well
/// apart for every yaw.
pub proof fn lemma_constrained_is_well_apart(yaw: int, pitch: int, height: int)
    requires
        -89_000_000 <= pitch <= 89_000_000,
        height != 0,
    ensures
        is_well_apart(yaw, pitch, vertical(height)),
{
    let front = direction_of(yaw, pitch).normalized();
    let world_up = vertical(height);
    let across = front.cross(world_up);
    lemma_constrained_front_slanted(yaw, pitch);
    assert(across.x == -(front.z * height));
    assert(across.z == front.x * height);
    lemma_norm_squared_nonnegative(across);
    let big = world_up.abs_sum();
    assert(big == abs_int(height));
    let c = if abs_int(front.x) >= 2_000 {
        front.x
    } else {
        front.z
    };
    assert((c * height) * (c * height) >= (2_000 * big) * (2_000 * big)) by (nonlinear_arith)
        requires
            c >= 2_000 || -c >= 2_000,
            big == height || big == -height,
            big >= 0,
    ;
    assert((-(front.z * height)) * (-(front.z * height)) == (front.z * height) * (front.z
        * height)) by (nonlinear_arith);
    lemma_length_at_least(across, 2_000 * big);
}

/// `up` lies on the side of `world_up`: their dot product is positive.
pub proof fn lemma_up_on_side_of_world_up(yaw: int, pitch: int, world_up: IntVec3)
    requires
        is_well_apart(yaw, pitch, world_up),
    ensures
        is_nondegenerate(yaw, pitch, world_up),
        frame_of(yaw, pitch, world_up).up.dot(world_up) > 0,
{
    let frame = frame_of(yaw, pitch, world_up);
    let front = frame.front;
    let right = frame.right;
    let up = frame.up;
    let across = front.cross(world_up);
    let above = right.cross(front);
    let m = MICRO as int;
    let big = world_up.abs_sum();
    lemma_zero_norm(world_up);
    lemma_abs_sum_bound(world_up);
    assert(big >= 1);
    lemma_zero_norm(across);
    lemma_length(across);
    let reach = across.length();
    assert(reach >= 2);
    assert(across.norm_squared() >= 4) by (nonlinear_arith)
        requires
            across.norm_squared() >= reach * reach,
            reach >= 2,
    ;
    lemma_frame_orthonormal(yaw, pitch, world_up);
    lemma_direction_long(yaw, pitch);
    lemma_normalized_unit(direction_of(yaw, pitch));
    lemma_normalized_unit(across);
    // `right . across` is large.
    let sa = across.stretched();
    let la = sa.length();
    let ka = across.stretch_factor();
    lemma_normalized_rounding(across);
    lemma_stretched_norm(across);
    lemma_dot_with_normalized(sa, across);
    lemma_dot_symmetric(sa, right);
    lemma_stretched_dot(across, right);
    lemma_dot_symmetric(across, right);
    let ra = right.dot(across);
    let lost_a = sa.dot(lost_vector(across));
    assert(ka * reach <= la) by {
        assert(sa.norm_squared() >= (ka * reach) * (ka * reach)) by (nonlinear_arith)
            requires
                sa.norm_squared() == (ka * ka) * across.norm_squared(),
                across.norm_squared() >= reach * reach,
                ka >= 1,
                reach >= 0,
        ;
        assert(ka * reach >= 0) by (nonlinear_arith)
            requires
                ka >= 1,
                reach >= 0,
        ;
        lemma_length_at_least(sa, ka * reach);
    }
    assert((ka * ra) * la >= (la * la) * (m - 3)) by (nonlinear_arith)
        requires
            (ka * ra) * la == m * sa.norm_squared() - lost_a,
            sa.norm_squared() >= la * la,
            abs_int(lost_a) <= sa.abs_sum() * (la - 1),
            0 <= sa.abs_sum() <= 3 * la,
            la >= 1,
            m >= 3,
    ;
    assert(ka * ra >= la * (m - 3)) by (nonlinear_arith)
        requires
            (ka * ra) * la >= (la * la) * (m - 3),
            la >= 1,
    ;
    // `up . world_up` follows it.
    lemma_cross_norm(right, front);
    lemma_cross_orthogonal(front, world_up);
    lemma_normalized_orthogonal(across, front);
    let (a, b, c) = (right.norm_squared(), front.norm_squared(), right.dot(front));
    lemma_unit_abs_sum(front);
    assert(above.norm_squared() >= 1 && above.norm_squared() <= 1_000_000_000_935
        * 1_000_000_000_935) by (nonlinear_arith)
        requires
            above.norm_squared() == a * b - c * c,
            999_994_000_000 <= a <= 1_000_000_000_935,
            999_994_000_000 <= b <= 1_000_000_000_935,
            -3_000_000 <= c <= 3_000_000,
    ;
    lemma_zero_norm(above);
    let su = above.stretched();
    let lu = su.length();
    let ku = above.stretch_factor();
    lemma_normalized_rounding(above);
    lemma_stretched_norm(above);
    lemma_dot_with_normalized(world_up, above);
    lemma_dot_symmetric(world_up, up);
    lemma_dot_symmetric(world_up, su);
    lemma_stretched_dot(above, world_up);
    lemma_scalar_triple(right, front, world_up);
    assert(above.dot(world_up) == ra);
    let high: int = 1_000_000_000_935;
    assert(lu <= ku * high) by (nonlinear_arith)
        requires
            lu * lu <= su.norm_squared(),
            su.norm_squared() == (ku * ku) * above.norm_squared(),
            above.norm_squared() <= high * high,
            ku >= 1,
            lu >= 0,
            high > 0,
    ;
    let lost_u = world_up.dot(lost_vector(above));
    let x = up.dot(world_up);
    assert(x * lu == m * (ku * ra) - lost_u);
    assert(x > 0) by (nonlinear_arith)
        requires
            x * lu == m * (ku * ra) - lost_u,
            abs_int(lost_u) <= big * (lu - 1),
            1 <= lu <= ku * high,
            ka * ra >= la * (m - 3),
            ka * reach <= la,
            1_000 * reach >= 1_001 * big + 1_000,
            ka >= 1,
            ku >= 1,
            big >= 1,
            m == 1_000_000,
            high == 1_000_000_000_935,
    ;
}

/// One component of `f x (r x f)`, which is `r (f . f) - f (f . r)`.
proof fn lemma_vector_triple_term(fx: int, fy: int, fz: int, rx: int, ry: int, rz: int)
    ensures
        fy * (rx * fy - ry * fx) - fz * (rz * fx - rx * fz) == rx * (fx * fx + fy * fy + fz * fz)
            - fx * (fx * rx + fy * ry + fz * rz),
{
    lemma_difference(rx * fy, ry * fx, fy);
    lemma_difference(rz * fx, rx * fz, fz);
    assert(fy * (rx * fy) == rx * (fy * fy)) by (nonlinear_arith);
    assert(fy * (ry * fx) == fx * (fy * ry)) by (nonlinear_arith);
    assert(fz * (rz * fx) == fx * (fz * rz)) by (nonlinear_arith);
    assert(fz * (rx * fz) == rx * (fz * fz)) by (nonlinear_arith);
    assert(rx * (fx * fx) == fx * (fx * rx)) by (nonlinear_arith);
    assert(rx * (fx * fx + fy * fy + fz * fz) == rx * (fx * fx) + rx * (fy * fy) + rx * (fz * fz))
        by (nonlinear_arith);
    assert(fx * (fx * rx + fy * ry + fz * rz) == fx * (fx * rx) + fx * (fy * ry) + fx * (fz * rz))
        by (nonlinear_arith);
}

/// `f x (r x f)` is `r (f . f) - f (f . r)`.
proof fn lemma_vector_triple(f: IntVec3, r: IntVec3)
    ensures
        f.cross(r.cross(f)).x == r.x * f.dot(f) - f.x * f.dot(r),
        f.cross(r.cross(f)).y == r.y * f.dot(f) - f.y * f.dot(r),
        f.cross(r.cross(f)).z == r.z * f.dot(f) - f.z * f.dot(r),
{
    lemma_vector_triple_term(f.x, f.y, f.z, r.x, r.y, r.z);
    lemma_vector_triple_term(f.y, f.z, f.x, r.y, r.z, r.x);
    lemma_vector_triple_term(f.z, f.x, f.y, r.z, r.x, r.y);
}

/// One component of the cross product of `f` and a normalised vector, times
/// the length: from the stretched components `s` and the lost parts `e`.
proof fn lemma_cross_term(
    fy: int,
    fz: int,
    uy: int,
    uz: int,
    sy: int,
    sz: int,
    ey: int,
    ez: int,
    len: int,
    m: int,
)
    requires
        uy * len == sy * m - ey,
        uz * len == sz * m - ez,
    ensures
        (fy * uz - fz * uy) * len == m * (fy * sz - fz * sy) - (fy * ez - fz * ey),
{
    assert((fy * uz) * len == m * (fy * sz) - fy * ez) by (nonlinear_arith)
        requires
            uz * len == sz * m - ez,
    ;
    assert((fz * uy) * len == m * (fz * sy) - fz * ey) by (nonlinear_arith)
        requires
            uy * len == sy * m - ey,
    ;
    lemma_difference(fy * uz, fz * uy, len);
    lemma_difference(fy * sz, fz * sy, m);
}

/// A component of a vector and the component of its normalised form differ
/// by what the length differs from one, and by rounding.
proof fn lemma_first_close(a: int, k: int, len: int, u: int, e: int)
    requires
        k >= 1,
        len >= 1,
        abs_int(a * k) <= len,
        u * len == (a * k) * MICRO - e,
        abs_int(e) <= len - 1,
        k * 999_993_999_995 <= len <= k * 1_000_000_000_935,
    ensures
        abs_int(a - u * MICRO) <= 7_000_005,
{
    let m: int = 1_000_000;
    let x = a - u * m;
    let gap = len - k * 1_000_000_000_000;
    assert(x * len == a * gap + m * e) by (nonlinear_arith)
        requires
            x == a - u * m,
            gap == len - k * 1_000_000_000_000,
            u * len == (a * k) * m - e,
            m == 1_000_000,
    ;
    assert(-(k * 6_000_005) <= gap <= k * 935);
    assert(abs_int(a * gap) <= len * 6_000_005) by (nonlinear_arith)
        requires
            -(k * 6_000_005) <= gap <= k * 6_000_005,
            abs_int(a * k) <= len,
            k >= 1,
            abs_int(a * gap) == a * gap || abs_int(a * gap) == -(a * gap),
            abs_int(a * k) == a * k || abs_int(a * k) == -(a * k),
    ;
    lemma_product_range(m, e, m, len - 1);
    assert(-(7_000_005 * len) <= x * len <= 7_000_005 * len) by (nonlinear_arith)
        requires
            x * len == a * gap + m * e,
            abs_int(a * gap) <= len * 6_000_005,
            abs_int(m * e) <= m * (len - 1),
            m == 1_000_000,
            len >= 1,
    ;
    lemma_bound_of_quotient(x, len, 7_000_005);
}

/// A component of `front x up` and the component of `right` differ by what
/// the lengths differ from one, by what `front` and `right` are from right
/// angles, and by rounding.
proof fn lemma_second_close(
    rx: int,
    fx: int,
    ff: int,
    fr: int,
    k: int,
    len: int,
    lost: int,
    t: int,
    slant: int,
)
    requires
        k >= 1,
        abs_int(rx) <= MICRO,
        abs_int(fx) <= MICRO,
        999_994_000_000 <= ff <= 1_000_000_000_935,
        abs_int(fr) <= slant,
        0 <= slant <= 1_732_050,
        abs_int(lost) <= slant * len,
        k * 999_993_999_995 <= len <= k * 1_000_000_000_935,
        t * len == MICRO * (k * (rx * ff - fx * fr)) - lost,
    ensures
        abs_int(t - rx * MICRO) <= 10 * MICRO,
{
    let m: int = 1_000_000;
    let y = t - rx * m;
    let gap = k * ff - len;
    assert(-(k * 6_000_940) <= gap <= k * 6_000_940) by (nonlinear_arith)
        requires
            gap == k * ff - len,
            999_994_000_000 <= ff <= 1_000_000_000_935,
            k * 999_993_999_995 <= len <= k * 1_000_000_000_935,
            k >= 1,
    ;
    let first = rx * gap;
    lemma_product_range(rx, gap, m, k * 6_000_940);
    let second = fx * fr;
    lemma_product_range(fx, fr, m, slant);
    lemma_difference(rx * ff, second, k);
    assert(k * (rx * ff) == rx * (k * ff)) by (nonlinear_arith);
    lemma_difference(k * ff, len, rx);
    assert(first == k * (rx * ff) - rx * len);
    lemma_difference(t, rx * m, len);
    assert((rx * m) * len == m * (rx * len)) by (nonlinear_arith);
    let whole = k * (rx * ff) - k * second;
    assert(m * whole == m * (k * (rx * ff)) - m * (k * second)) by (nonlinear_arith)
        requires
            whole == k * (rx * ff) - k * second,
    ;
    assert(m * first == m * (k * (rx * ff)) - m * (rx * len)) by (nonlinear_arith)
        requires
            first == k * (rx * ff) - rx * len,
    ;
    assert(y * len == m * first - m * (k * second) - lost);
    assert(abs_int(m * first) <= k * 6_000_940_000_000_000_000) by (nonlinear_arith)
        requires
            abs_int(first) <= m * (k * 6_000_940),
            m == 1_000_000,
            abs_int(m * first) == m * first || abs_int(m * first) == -(m * first),
            abs_int(first) >= first,
            abs_int(first) >= -first,
    ;
    assert(abs_int(m * (k * second)) <= k * 1_732_050_000_000_000_000) by (nonlinear_arith)
        requires
            abs_int(second) <= m * slant,
            slant <= 1_732_050,
            m == 1_000_000,
            k >= 1,
            abs_int(m * (k * second)) == m * (k * second) || abs_int(m * (k * second)) == -(m * (k
                * second)),
            abs_int(second) >= second,
            abs_int(second) >= -second,
    ;
    assert(k * 7_732_990_000_000_000_000 <= 8_267_950 * len) by (nonlinear_arith)
        requires
            k * 999_993_999_995 <= len,
            k >= 1,
    ;
    assert(abs_int(lost) <= 1_732_050 * len) by (nonlinear_arith)
        requires
            abs_int(lost) <= slant * len,
            0 <= slant <= 1_732_050,
            len >= 1,
    ;
    assert(-(10_000_000 * len) <= y * len <= 10_000_000 * len);
    lemma_bound_of_quotient(y, len, 10_000_000);
}

/// The frame is right-handed: the cross product of `right` and `front` is
/// `up`, and that of `front` and `up` is `right`, each component within a
/// hundred-thousandth.
pub proof fn lemma_right_handed(yaw: int, pitch: int, world_up: IntVec3)
    requires
        is_nondegenerate(yaw, pitch, world_up),
    ensures
        ({
            let frame = frame_of(yaw, pitch, world_up);
            &&& frame.right.cross(frame.front).is_within(frame.up.scaled(MICRO as int), 10 * MICRO)
            &&& frame.front.cross(frame.up).is_within(
                frame.right.scaled(MICRO as int),
                10 * MICRO,
            )
        }),
{
    let frame = frame_of(yaw, pitch, world_up);
    let front = frame.front;
    let right = frame.right;
    let up = frame.up;
    let across = front.cross(world_up);
    let above = right.cross(front);
    let m = MICRO as int;
    lemma_frame_orthonormal(yaw, pitch, world_up);
    lemma_direction_long(yaw, pitch);
    lemma_normalized_unit(direction_of(yaw, pitch));
    lemma_normalized_unit(across);
    lemma_normalized_rounding(direction_of(yaw, pitch));
    lemma_normalized_rounding(across);
    lemma_cross_orthogonal(front, world_up);
    lemma_normalized_orthogonal(across, front);
    lemma_unit_abs_sum(front);
    lemma_cross_norm(right, front);
    lemma_dot_symmetric(right, front);
    let (a, b, c) = (right.norm_squared(), front.norm_squared(), right.dot(front));
    let low: int = 999_993_999_995;
    let high: int = 1_000_000_000_935;
    assert(low * low <= above.norm_squared() <= high * high) by (nonlinear_arith)
        requires
            above.norm_squared() == a * b - c * c,
            999_994_000_000 <= a <= 1_000_000_000_935,
            999_994_000_000 <= b <= 1_000_000_000_935,
            -1_732_050 <= c <= 1_732_050,
            low == 999_993_999_995,
            high == 1_000_000_000_935,
    ;
    lemma_zero_norm(above);
    let s = above.stretched();
    let len = s.length();
    let k = above.stretch_factor();
    let e = lost_vector(above);
    lemma_normalized_rounding(above);
    lemma_stretched_norm(above);
    assert(s.norm_squared() >= (k * low) * (k * low) && s.norm_squared() <= (k * high) * (k
        * high)) by (nonlinear_arith)
        requires
            s.norm_squared() == (k * k) * above.norm_squared(),
            low * low <= above.norm_squared() <= high * high,
            k >= 1,
    ;
    lemma_length_at_least(s, k * low);
    assert(len <= k * high) by (nonlinear_arith)
        requires
            len * len <= s.norm_squared(),
            s.norm_squared() <= (k * high) * (k * high),
            len >= 0,
            k >= 1,
            high > 0,
    ;
    // The cross product of `right` and `front` against `up`.
    lemma_first_close(above.x, k, len, up.x, e.x);
    lemma_first_close(above.y, k, len, up.y, e.y);
    lemma_first_close(above.z, k, len, up.z, e.z);
    // The cross product of `front` and `up` against `right`.
    lemma_vector_triple(front, right);
    let slant = front.abs_sum();
    lemma_cross_term(front.y, front.z, up.y, up.z, s.y, s.z, e.y, e.z, len, m);
    lemma_cross_term(front.z, front.x, up.z, up.x, s.z, s.x, e.z, e.x, len, m);
    lemma_cross_term(front.x, front.y, up.x, up.y, s.x, s.y, e.x, e.y, len, m);
    lemma_lost_cross(front.y, front.z, e.y, e.z, len, slant);
    lemma_lost_cross(front.z, front.x, e.z, e.x, len, slant);
    lemma_lost_cross(front.x, front.y, e.x, e.y, len, slant);
    lemma_stretched_cross(front.y, front.z, above.y, above.z, k);
    lemma_stretched_cross(front.z, front.x, above.z, above.x, k);
    lemma_stretched_cross(front.x, front.y, above.x, above.y, k);
    let turned = front.cross(up);
    let ff = front.dot(front);
    let fr = front.dot(right);
    lemma_second_close(
        right.x,
        front.x,
        ff,
        fr,
        k,
        len,
        front.y * e.z - front.z * e.y,
        turned.x,
        slant,
    );
    lemma_second_close(
        right.y,
        front.y,
        ff,
        fr,
        k,
        len,
        front.z * e.x - front.x * e.z,
        turned.y,
        slant,
    );
    lemma_second_close(
        right.z,
        front.z,
        ff,
        fr,
        k,
        len,
        front.x * e.y - front.y * e.x,
        turned.z,
        slant,
    );
}

/// The cross product of `f` and the lost parts is short.
proof fn lemma_lost_cross(fy: int, fz: int, ey: int, ez: int, len: int, slant: int)
    requires
        abs_int(ey) <= len - 1,
        abs_int(ez) <= len - 1,
        abs_int(fy) + abs_int(fz) <= slant,
        len >= 1,
    ensures
        abs_int(fy * ez - fz * ey) <= slant * len,
{
    lemma_product_range(fy, ez, abs_int(fy), len - 1);
    lemma_product_range(fz, ey, abs_int(fz), len - 1);
    assert(abs_int(fy) * (len - 1) + abs_int(fz) * (len - 1) <= slant * len) by (nonlinear_arith)
        requires
            0 <= abs_int(fy) + abs_int(fz) <= slant,
            abs_int(fy) >= 0,
            abs_int(fz) >= 0,
            len >= 1,
    ;
}

/// The cross product with a stretched vector is the cross product times the
/// factor.
proof fn lemma_stretched_cross(fy: int, fz: int, ay: int, az: int, k: int)
    ensures
        fy * (az * k) - fz * (ay * k) == k * (fy * az - fz * ay),
{
    assert(fy * (az * k) == k * (fy * az)) by (nonlinear_arith);
    assert(fz * (ay * k) == k * (fz * ay)) by (nonlinear_arith);
    lemma_difference(fy * az, fz * ay, k);
}

} // verus!
