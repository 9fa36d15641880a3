//! The view transform: the matrix that takes world coordinates to
//! coordinates relative to an eye with a given frame, and the look-at that
//! derives such a frame from a direction and a vertical.

use vstd::prelude::*;
use crate::fixed::{abs_int, div_toward_zero, MICRO, PICO};
use crate::frame::Frame;
use crate::vec3::{
    lemma_bound_of_quotient, lemma_cross_norm, lemma_cross_orthogonal, lemma_dot_symmetric,
    lemma_norm_squared_nonnegative, lemma_normalized_orthogonal, lemma_normalized_rounding,
    lemma_normalized_unit, lemma_product_bound, lemma_square_bound, IntVec3, Vec3, WideVec3,
};

verus! {

/// A matrix of four rows of four entries, each counted in millionths.
pub type Mat4 = [[i64; 4]; 4];

/// `value`, a product of a direction and a position, brought back to
/// millionths.
pub open spec fn to_micro(value: int) -> int {
    div_toward_zero(value, PICO as int)
}

/// The frame of an eye that looks along `direction` with `up` as the
/// vertical: the direction normalised, the normalised cross product of that
/// and `up` to its right, and the cross product of those two above.
pub open spec fn look_along_frame(direction: IntVec3, up: IntVec3) -> Frame {
    let front = direction.normalized();
    let right = front.cross(up).normalized();
    let above = right.cross(front);
    Frame {
        front,
        right,
        up: IntVec3 {
            x: div_toward_zero(above.x, MICRO as int),
            y: div_toward_zero(above.y, MICRO as int),
            z: div_toward_zero(above.z, MICRO as int),
        },
    }
}

/// The vector in row `row` of the view transform of a frame: `right`, `up`
/// and the opposite of `front`.
pub open spec fn view_row(frame: Frame, row: int) -> IntVec3 {
    if row == 0 {
        frame.right
    } else if row == 1 {
        frame.up
    } else {
        frame.front.scaled(-1)
    }
}

/// The entry in row `row` and column `col` of the view transform of an eye
/// at `position` with the given frame.
///
/// The first three rows hold `right`, `up` and the opposite of `front`,
/// each followed by the offset that takes `position` to the origin; the
/// last row is that of an affine transform.
pub open spec fn view_entry(frame: Frame, position: IntVec3, row: int, col: int) -> int {
    let axis = view_row(frame, row);
    if row == 3 {
        if col == 3 {
            MICRO as int
        } else {
            0
        }
    } else if col == 0 {
        axis.x
    } else if col == 1 {
        axis.y
    } else if col == 2 {
        axis.z
    } else {
        to_micro(-axis.dot(position))
    }
}

/// The view transform takes the eye to the origin: in each of the first
/// three rows, the row vector applied to `position` and the offset cancel
/// within a millionth.
pub proof fn lemma_eye_to_origin(frame: Frame, position: IntVec3, row: int)
    requires
        0 <= row < 3,
    ensures
        abs_int(view_row(frame, row).dot(position) + view_entry(frame, position, row, 3) * PICO)
            < PICO,
{
}

/// The square of a quotient by `m`, written out over the dividend and the
/// part lost in rounding.
proof fn lemma_divided_square(a: int, u: int, e: int, m: int)
    requires
        u * m == a - e,
    ensures
        (u * u) * (m * m) == a * a - 2 * (a * e) + e * e,
{
    let p = u * m;
    assert(p * p == (u * u) * (m * m)) by (nonlinear_arith)
        requires
            p == u * m,
    ;
    assert(p * p == a * a - 2 * (a * e) + e * e) by (nonlinear_arith)
        requires
            p == a - e,
    ;
}

/// One term of the dot product of a quotient by `m` with `w`.
proof fn lemma_divided_term(a: int, u: int, e: int, m: int, w: int)
    requires
        u * m == a - e,
    ensures
        (u * w) * m == a * w - e * w,
{
    assert((u * w) * m == a * w - e * w) by (nonlinear_arith)
        requires
            u * m == a - e,
    ;
}

/// The frame of a look-at is orthonormal wherever the direction is not
/// nothing and not parallel to `up`: its three vectors are one long and at
/// right angles to each other, within a hundred-thousandth. So the three
/// rows of the view transform take `right`, `up` and `front` of that frame
/// to the x axis, the y axis and the negative z axis.
pub proof fn lemma_look_along_frame_orthonormal(direction: IntVec3, up: IntVec3)
    requires
        !direction.is_zero(),
        !direction.normalized().cross(up).is_zero(),
    ensures
        look_along_frame(direction, up).is_orthonormal(),
{
    let frame = look_along_frame(direction, up);
    let front = frame.front;
    let right = frame.right;
    let across = front.cross(up);
    let above = right.cross(front);
    let u = frame.up;
    let m = MICRO as int;
    lemma_normalized_unit(direction);
    lemma_normalized_unit(across);
    lemma_normalized_rounding(direction);
    lemma_normalized_rounding(across);
    lemma_cross_orthogonal(front, up);
    lemma_normalized_orthogonal(across, front);
    lemma_dot_symmetric(front, right);
    lemma_cross_norm(right, front);
    lemma_cross_orthogonal(right, front);
    let (a, b, c) = (right.norm_squared(), front.norm_squared(), right.dot(front));
    let low: int = 999_993_999_995;
    let high: int = 1_000_000_000_935;
    let n = above.norm_squared();
    assert(low * low <= n <= high * high) by (nonlinear_arith)
        requires
            n == a * b - c * c,
            999_994_000_000 <= a <= 1_000_000_000_935,
            999_994_000_000 <= b <= 1_000_000_000_935,
            -3_000_000 <= c <= 3_000_000,
            low == 999_993_999_995,
            high == 1_000_000_000_935,
    ;
    lemma_norm_squared_nonnegative(above);
    lemma_within_root(above.x, n, high);
    lemma_within_root(above.y, n, high);
    lemma_within_root(above.z, n, high);
    let (ex, ey, ez) = (above.x - u.x * m, above.y - u.y * m, above.z - u.z * m);
    assert(abs_int(ex) <= m - 1 && abs_int(ey) <= m - 1 && abs_int(ez) <= m - 1);
    // One long.
    lemma_divided_square(above.x, u.x, ex, m);
    lemma_divided_square(above.y, u.y, ey, m);
    lemma_divided_square(above.z, u.z, ez, m);
    lemma_product_bound(ex, above.x, m - 1);
    lemma_product_bound(ey, above.y, m - 1);
    lemma_product_bound(ez, above.z, m - 1);
    lemma_square_bound(ex, m - 1);
    lemma_square_bound(ey, m - 1);
    lemma_square_bound(ez, m - 1);
    let s = u.norm_squared();
    let q = m * m;
    assert(s * q == (u.x * u.x) * q + (u.y * u.y) * q + (u.z * u.z) * q) by (nonlinear_arith)
        requires
            s == u.x * u.x + u.y * u.y + u.z * u.z,
    ;
    let mixed = above.x * ex + above.y * ey + above.z * ez;
    let lost = ex * ex + ey * ey + ez * ez;
    assert(ex * above.x == above.x * ex && ey * above.y == above.y * ey && ez * above.z
        == above.z * ez) by (nonlinear_arith);
    assert(abs_int(mixed) <= 3 * ((m - 1) * high)) by (nonlinear_arith)
        requires
            abs_int(above.x * ex) <= (m - 1) * abs_int(above.x),
            abs_int(above.y * ey) <= (m - 1) * abs_int(above.y),
            abs_int(above.z * ez) <= (m - 1) * abs_int(above.z),
            abs_int(above.x) <= high,
            abs_int(above.y) <= high,
            abs_int(above.z) <= high,
            mixed == above.x * ex + above.y * ey + above.z * ez,
            m >= 1,
    ;
    assert(s * q == n - 2 * mixed + lost);
    assert((m - 10) * (m - 10) <= s <= (m + 10) * (m + 10)) by (nonlinear_arith)
        requires
            s * q == n - 2 * mixed + lost,
            low * low <= n <= high * high,
            abs_int(mixed) <= 3 * ((m - 1) * high),
            0 <= lost <= 3 * ((m - 1) * (m - 1)),
            q == 1_000_000_000_000,
            m == 1_000_000,
            low == 999_993_999_995,
            high == 1_000_000_000_935,
    ;
    // At right angles to `right` and to `front`.
    lemma_divided_term(above.x, u.x, ex, m, right.x);
    lemma_divided_term(above.y, u.y, ey, m, right.y);
    lemma_divided_term(above.z, u.z, ez, m, right.z);
    lemma_divided_term(above.x, u.x, ex, m, front.x);
    lemma_divided_term(above.y, u.y, ey, m, front.y);
    lemma_divided_term(above.z, u.z, ez, m, front.z);
    lemma_product_bound(ex, right.x, m - 1);
    lemma_product_bound(ey, right.y, m - 1);
    lemma_product_bound(ez, right.z, m - 1);
    lemma_product_bound(ex, front.x, m - 1);
    lemma_product_bound(ey, front.y, m - 1);
    lemma_product_bound(ez, front.z, m - 1);
    let ur = u.dot(right);
    let uf = u.dot(front);
    assert(ur * m == (u.x * right.x) * m + (u.y * right.y) * m + (u.z * right.z) * m)
        by (nonlinear_arith)
        requires
            ur == u.x * right.x + u.y * right.y + u.z * right.z,
    ;
    assert(uf * m == (u.x * front.x) * m + (u.y * front.y) * m + (u.z * front.z) * m)
        by (nonlinear_arith)
        requires
            uf == u.x * front.x + u.y * front.y + u.z * front.z,
    ;
    assert(-((3 * m) * m) <= ur * m <= (3 * m) * m) by (nonlinear_arith)
        requires
            ur * m == -(ex * right.x + ey * right.y + ez * right.z),
            abs_int(ex * right.x) <= (m - 1) * abs_int(right.x),
            abs_int(ey * right.y) <= (m - 1) * abs_int(right.y),
            abs_int(ez * right.z) <= (m - 1) * abs_int(right.z),
            abs_int(right.x) <= m,
            abs_int(right.y) <= m,
            abs_int(right.z) <= m,
            m >= 1,
    ;
    assert(-((3 * m) * m) <= uf * m <= (3 * m) * m) by (nonlinear_arith)
        requires
            uf * m == -(ex * front.x + ey * front.y + ez * front.z),
            abs_int(ex * front.x) <= (m - 1) * abs_int(front.x),
            abs_int(ey * front.y) <= (m - 1) * abs_int(front.y),
            abs_int(ez * front.z) <= (m - 1) * abs_int(front.z),
            abs_int(front.x) <= m,
            abs_int(front.y) <= m,
            abs_int(front.z) <= m,
            m >= 1,
    ;
    lemma_bound_of_quotient(ur, m, 3 * m);
    lemma_bound_of_quotient(uf, m, 3 * m);
    lemma_dot_symmetric(front, u);
    lemma_dot_symmetric(right, u);
}

/// A number whose square is at most `n`, which is at most the square of
/// `high`, is at most `high` in magnitude.
proof fn lemma_within_root(a: int, n: int, high: int)
    requires
        a * a <= n <= high * high,
        high >= 0,
    ensures
        abs_int(a) <= high,
{
    assert(-high <= a <= high) by (nonlinear_arith)
        requires
            a * a <= high * high,
            high >= 0,
    ;
}

/// The product of a direction component and a position component.
proof fn lemma_term_range(a: int, p: int)
    requires
        -0x8000_0000 <= a < 0x8000_0000,
        -0x8000_0000_0000_0000 <= p < 0x8000_0000_0000_0000,
    ensures
        -0x8000_0000_0000_0000_0000_0000 <= a * p <= 0x8000_0000_0000_0000_0000_0000,
{
    assert(-0x8000_0000_0000_0000_0000_0000 <= a * p <= 0x8000_0000_0000_0000_0000_0000)
        by (nonlinear_arith)
        requires
            -0x8000_0000 <= a < 0x8000_0000,
            -0x8000_0000_0000_0000 <= p < 0x8000_0000_0000_0000,
    ;
}

/// The dot product of a direction and a position, exact.
fn dot(axis: &Vec3, position: &WideVec3) -> (r: i128)
    ensures
        r == axis@.dot(position@),
        -0x1_8000_0000_0000_0000_0000_0000 <= r <= 0x1_8000_0000_0000_0000_0000_0000,
{
    proof {
        lemma_term_range(axis.x as int, position.x as int);
        lemma_term_range(axis.y as int, position.y as int);
        lemma_term_range(axis.z as int, position.z as int);
    }
    let x: i128 = (axis.x as i128) * (position.x as i128);
    let y: i128 = (axis.y as i128) * (position.y as i128);
    let z: i128 = (axis.z as i128) * (position.z as i128);
    x + y + z
}

/// The offset of one row: the opposite of `along`, brought back to
/// millionths.
fn offset(along: i128) -> (r: i64)
    requires
        -0x1_8000_0000_0000_0000_0000_0000 <= along <= 0x1_8000_0000_0000_0000_0000_0000,
    ensures
        r == to_micro(-along),
{
    if along <= 0 {
        let magnitude: u128 = (-along) as u128;
        (magnitude / 1_000_000_000_000) as i64
    } else {
        let magnitude: u128 = along as u128;
        -((magnitude / 1_000_000_000_000) as i64)
    }
}

/// A component of a product of two directions, brought back to millionths.
fn to_direction(value: i64) -> (r: i32)
    requires
        -2_000_000_000_000 <= value <= 2_000_000_000_000,
    ensures
        r == div_toward_zero(value as int, MICRO as int),
{
    if value >= 0 {
        ((value as u64) / 1_000_000) as i32
    } else {
        -((((-value) as u64) / 1_000_000) as i32)
    }
}

/// The cross product of two vectors of components no larger than one.
proof fn lemma_cross_of_units(a: IntVec3, b: IntVec3)
    requires
        -MICRO <= a.x <= MICRO,
        -MICRO <= a.y <= MICRO,
        -MICRO <= a.z <= MICRO,
        -MICRO <= b.x <= MICRO,
        -MICRO <= b.y <= MICRO,
        -MICRO <= b.z <= MICRO,
    ensures
        -2_000_000_000_000 <= a.cross(b).x <= 2_000_000_000_000,
        -2_000_000_000_000 <= a.cross(b).y <= 2_000_000_000_000,
        -2_000_000_000_000 <= a.cross(b).z <= 2_000_000_000_000,
{
    lemma_unit_product(a.y, b.z);
    lemma_unit_product(a.z, b.y);
    lemma_unit_product(a.z, b.x);
    lemma_unit_product(a.x, b.z);
    lemma_unit_product(a.x, b.y);
    lemma_unit_product(a.y, b.x);
}

/// The product of two components no larger than one.
proof fn lemma_unit_product(a: int, b: int)
    requires
        -MICRO <= a <= MICRO,
        -MICRO <= b <= MICRO,
    ensures
        -1_000_000_000_000 <= a * b <= 1_000_000_000_000,
{
    assert(-1_000_000_000_000 <= a * b <= 1_000_000_000_000) by (nonlinear_arith)
        requires
            -1_000_000 <= a <= 1_000_000,
            -1_000_000 <= b <= 1_000_000,
    ;
}

/// The view transform of an eye at `eye` whose frame is `right`, `up` and
/// `front`: row by row, in millionths.
pub fn view_of(eye: &WideVec3, right: &Vec3, up: &Vec3, front: &Vec3) -> (m: Mat4)
    ensures
        forall|row: int, col: int|
            0 <= row < 4 && 0 <= col < 4 ==> #[trigger] m[row][col] == view_entry(
                Frame { front: front@, right: right@, up: up@ },
                eye@,
                row,
                col,
            ),
{
    let along_right: i128 = dot(right, eye);
    let along_up: i128 = dot(up, eye);
    let along_front: i128 = dot(front, eye);
    proof {
        let back = front@.scaled(-1);
        assert(back.dot(eye@) == -along_front) by (nonlinear_arith)
            requires
                back.dot(eye@) == (front.x * -1) * eye.x + (front.y * -1) * eye.y + (front.z * -1)
                    * eye.z,
                along_front == front.x * eye.x + front.y * eye.y + front.z * eye.z,
        ;
    }
    [
        [right.x as i64, right.y as i64, right.z as i64, offset(along_right)],
        [up.x as i64, up.y as i64, up.z as i64, offset(along_up)],
        [-(front.x as i64), -(front.y as i64), -(front.z as i64), offset(-along_front)],
        [0, 0, 0, 1_000_000],
    ]
}

/// The look-at transform from `eye` along `direction`, with `up` as the
/// vertical: the view transform of the frame that the two span.
pub fn look_along(eye: &WideVec3, direction: &Vec3, up: &Vec3) -> (m: Mat4)
    ensures
        forall|row: int, col: int|
            0 <= row < 4 && 0 <= col < 4 ==> #[trigger] m[row][col] == view_entry(
                look_along_frame(direction@, up@),
                eye@,
                row,
                col,
            ),
{
    let front = direction.widen().normalize();
    let right = front.cross(up).normalize();
    let product = right.cross(&front);
    proof {
        lemma_cross_of_units(right@, front@);
    }
    let above = Vec3 {
        x: to_direction(product.x),
        y: to_direction(product.y),
        z: to_direction(product.z),
    };
    view_of(eye, &right, &above, &front)
}

} // verus!
