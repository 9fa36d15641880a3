//! The fly camera: a position, an orientation given by yaw and pitch, the
//! orthonormal frame derived from them, and a field of view.
//!
//! Angles and the field of view are counted in millionths of a degree, the
//! frame and `world_up` in millionths, the position in million-millionths.
//! Speeds, sensitivities, pointer and scroll deltas are counted in
//! thousandths, and elapsed time in milliseconds.

use vstd::prelude::*;
use crate::fixed::{abs_int, clamp_int, MICRO, PICO};
use crate::frame::{
    frame_of, is_nondegenerate, lemma_constrained_frame_orthonormal,
    lemma_constrained_front_slanted, lemma_default_frame, lemma_frame_orthonormal, vertical, Frame,
};
use crate::handed::{
    lemma_constrained_is_well_apart, lemma_right_across_world_up, lemma_right_handed,
    lemma_up_on_side_of_world_up,
};
use crate::trig::{cos, sin, NANO};
use crate::vec3::{lemma_dot_symmetric, IntVec3, Vec3, WideVec3};
use crate::view::{lemma_eye_to_origin, view_entry, view_of, view_row, Mat4};

verus! {

/// Yaw of a default camera: it looks along the negative z axis.
pub const DEFAULT_YAW: i64 = -90_000_000;

/// Pitch of a default camera: level.
pub const DEFAULT_PITCH: i64 = 0;

/// Largest magnitude of a constrained pitch.
pub const PITCH_LIMIT: i64 = 89_000_000;

/// Narrowest field of view.
pub const FOV_MIN: i64 = 1_000_000;

/// Widest field of view.
pub const FOV_MAX: i64 = 90_000_000;

/// Field of view of a new camera.
pub const DEFAULT_FOV: i64 = 45_000_000;

/// Movement speed of a new camera, in thousandths of a unit per second.
pub const DEFAULT_MOVEMENT_SPEED: i32 = 2_500;

/// Mouse sensitivity of a new camera, in thousandths of a degree per pointer
/// unit.
pub const DEFAULT_MOUSE_SENSITIVITY: i32 = 75;

/// Scroll sensitivity of a new camera, in thousandths of a degree per scroll
/// unit.
pub const DEFAULT_SCROLL_SENSITIVITY: i32 = 1_000;

/// A direction of keyboard movement.
#[derive(Clone, Copy, Debug, PartialEq, Eq, Structural)]
pub enum CameraMovement {
    Forward,
    Backward,
    Left,
    Right,
    Up,
    Down,
}

/// The frame vector along which `direction` moves, with its sign.
pub open spec fn axis(frame: Frame, direction: CameraMovement) -> IntVec3 {
    match direction {
        CameraMovement::Forward => frame.front,
        CameraMovement::Backward => frame.front.scaled(-1),
        CameraMovement::Left => frame.right.scaled(-1),
        CameraMovement::Right => frame.right,
        CameraMovement::Up => frame.up,
        CameraMovement::Down => frame.up.scaled(-1),
    }
}

/// How far a camera with the given frame and speed moves in `direction`
/// within `delta_time` milliseconds, in million-millionths.
pub open spec fn displacement(
    frame: Frame,
    direction: CameraMovement,
    movement_speed: int,
    delta_time: int,
) -> IntVec3 {
    axis(frame, direction).scaled(movement_speed * delta_time)
}

/// `value` limited to what a position component can hold.
pub open spec fn saturated(value: int) -> int {
    clamp_int(value, i64::MIN as int, i64::MAX as int)
}

/// The pitch that follows a vertical pointer delta.
pub open spec fn next_pitch(pitch: int, y_offset: int, sensitivity: int, constrain: bool) -> int {
    if constrain {
        clamp_int(pitch + y_offset * sensitivity, -PITCH_LIMIT as int, PITCH_LIMIT as int)
    } else {
        saturated(pitch + y_offset * sensitivity)
    }
}

/// A fly camera.
#[derive(Clone, Copy, Debug)]
pub struct Camera {
    /// Where the camera stands, in million-millionths of a unit.
    pub position: WideVec3,
    /// The fixed reference for "up", in millionths.
    pub world_up: Vec3,
    /// The look direction, in millionths; derived from yaw and pitch.
    pub front: Vec3,
    /// The direction above the look direction, in millionths; derived.
    pub up: Vec3,
    /// The direction to the right of the look direction, in millionths;
    /// derived.
    pub right: Vec3,
    /// Rotation about the vertical, in millionths of a degree.
    pub yaw: i64,
    /// Elevation, in millionths of a degree.
    pub pitch: i64,
    /// Thousandths of a unit per second.
    pub movement_speed: i32,
    /// Thousandths of a degree per pointer unit.
    pub mouse_sensitivity: i32,
    /// Thousandths of a degree per scroll unit.
    pub scroll_sensitivity: i32,
    /// Field of view, in millionths of a degree.
    pub fov: i64,
}

/// `value` limited to the range of `i64`.
fn saturate(value: i128) -> (r: i64)
    ensures
        r == saturated(value as int),
{
    if value < i64::MIN as i128 {
        i64::MIN
    } else if value > i64::MAX as i128 {
        i64::MAX
    } else {
        value as i64
    }
}

/// `base + factor * step`, limited to the range of `i64`.
fn advance(base: i64, factor: i32, step: i64) -> (r: i64)
    ensures
        r == saturated(base + factor * step),
{
    assert(-0x4000_0000_0000_0000_0000_0000 <= factor * step <= 0x4000_0000_0000_0000_0000_0000)
        by (nonlinear_arith)
        requires
            -0x8000_0000 <= factor < 0x8000_0000,
            -0x8000_0000_0000_0000 <= step < 0x8000_0000_0000_0000,
    ;
    saturate(base as i128 + (factor as i128) * (step as i128))
}

/// Moving backwards along a vector is moving forwards along its opposite.
proof fn lemma_negated(a: int, v: int)
    ensures
        (a * -1) * v == a * (-v),
{
    assert((a * -1) * v == a * (-v)) by (nonlinear_arith);
}

/// Movement scales with elapsed time: over `k` times the time a camera
/// moves `k` times as far, for a frame that stays as it is.
pub proof fn lemma_displacement_linear(
    frame: Frame,
    direction: CameraMovement,
    movement_speed: int,
    delta_time: int,
    k: int,
)
    ensures
        displacement(frame, direction, movement_speed, k * delta_time) == displacement(
            frame,
            direction,
            movement_speed,
            delta_time,
        ).scaled(k),
{
    let a = axis(frame, direction);
    let v = movement_speed * delta_time;
    assert(movement_speed * (k * delta_time) == v * k) by (nonlinear_arith)
        requires
            v == movement_speed * delta_time,
    ;
    assert(a.x * (v * k) == (a.x * v) * k) by (nonlinear_arith);
    assert(a.y * (v * k) == (a.y * v) * k) by (nonlinear_arith);
    assert(a.z * (v * k) == (a.z * v) * k) by (nonlinear_arith);
}

/// Twice the time, twice the way.
pub proof fn lemma_displacement_doubles(
    frame: Frame,
    direction: CameraMovement,
    movement_speed: int,
    delta_time: int,
)
    ensures
        displacement(frame, direction, movement_speed, 2 * delta_time) == displacement(
            frame,
            direction,
            movement_speed,
            delta_time,
        ).scaled(2),
{
    lemma_displacement_linear(frame, direction, movement_speed, delta_time, 2);
}

/// A camera whose frame belongs to its orientation has an orthonormal
/// frame: `front`, `right` and `up` are each one long and at right angles to
/// each other, within a hundred-thousandth. This holds wherever the look
/// direction and `world_up` are not parallel, and so for every yaw wherever
/// the pitch is within the limit and `world_up` lies along the y axis.
pub proof fn lemma_camera_orthonormal(camera: Camera)
    requires
        camera.is_oriented(),
    ensures
        camera.is_constrained() ==> camera.is_nondegenerate(),
        camera.is_nondegenerate() ==> camera.frame().is_orthonormal(),
{
    if camera.is_constrained() {
        assert(camera.world_up@ == vertical(camera.world_up.y as int));
        lemma_constrained_frame_orthonormal(
            camera.yaw as int,
            camera.pitch as int,
            camera.world_up.y as int,
        );
    }
    if camera.is_nondegenerate() {
        lemma_frame_orthonormal(camera.yaw as int, camera.pitch as int, camera.world_up@);
    }
}

/// A camera whose frame belongs to its orientation and is well defined is
/// right-handed: the cross product of `right` and `front` is `up`, that of
/// `front` and `up` is `right`, and `right` is at right angles to the
/// direction of `world_up`, each within a hundred-thousandth. With the pitch
/// within the limit and `world_up` along the y axis, `up` lies on the side of
/// `world_up` and `front` is never upright.
pub proof fn lemma_camera_handed(camera: Camera)
    requires
        camera.is_oriented(),
        camera.is_nondegenerate(),
    ensures
        camera.is_right_handed(),
        camera.is_constrained() ==> camera.up@.dot(camera.world_up@) > 0 && abs_int(
            camera.front.y as int,
        ) <= 999_998,
{
    let (yaw, pitch, world_up) = (camera.yaw as int, camera.pitch as int, camera.world_up@);
    lemma_right_handed(yaw, pitch, world_up);
    lemma_right_across_world_up(yaw, pitch, world_up);
    if camera.is_constrained() {
        assert(world_up == vertical(camera.world_up.y as int));
        lemma_constrained_is_well_apart(yaw, pitch, camera.world_up.y as int);
        lemma_up_on_side_of_world_up(yaw, pitch, world_up);
        lemma_constrained_front_slanted(yaw, pitch);
    }
}

/// What the view matrix of a camera does, for a frame that belongs to the
/// orientation and is well defined: row `row` takes the position to nothing
/// within a millionth, and it takes `right`, `up` and `front` to the x axis,
/// the y axis and the negative z axis, within a hundred-thousandth.
pub proof fn lemma_view_matrix(camera: Camera, row: int)
    requires
        camera.is_oriented(),
        camera.is_nondegenerate(),
        0 <= row < 3,
    ensures
        ({
            let frame = camera.frame();
            let axis = view_row(frame, row);
            let one = MICRO * MICRO;
            &&& abs_int(axis.dot(camera.position@) + view_entry(
                frame,
                camera.position@,
                row,
                3,
            ) * PICO) < PICO
            &&& abs_int(axis.dot(frame.right) - (if row == 0 {
                one
            } else {
                0
            })) <= 10 * MICRO
            &&& abs_int(axis.dot(frame.up) - (if row == 1 {
                one
            } else {
                0
            })) <= 10 * MICRO
            &&& abs_int(axis.dot(frame.front) - (if row == 2 {
                -one
            } else {
                0
            })) <= 10 * MICRO
        }),
{
    let frame = camera.frame();
    let (front, right, up) = (frame.front, frame.right, frame.up);
    lemma_frame_orthonormal(camera.yaw as int, camera.pitch as int, camera.world_up@);
    lemma_eye_to_origin(frame, camera.position@, row);
    lemma_dot_symmetric(up, right);
    lemma_dot_symmetric(up, front);
    lemma_dot_symmetric(right, front);
    let back = front.scaled(-1);
    assert(back.dot(right) == -front.dot(right) && back.dot(up) == -front.dot(up) && back.dot(
        front,
    ) == -front.dot(front)) by (nonlinear_arith)
        requires
            back.x == front.x * -1,
            back.y == front.y * -1,
            back.z == front.z * -1,
            back.dot(right) == back.x * right.x + back.y * right.y + back.z * right.z,
            back.dot(up) == back.x * up.x + back.y * up.y + back.z * up.z,
            back.dot(front) == back.x * front.x + back.y * front.y + back.z * front.z,
            front.dot(right) == front.x * right.x + front.y * right.y + front.z * right.z,
            front.dot(up) == front.x * up.x + front.y * up.y + front.z * up.z,
            front.dot(front) == front.x * front.x + front.y * front.y + front.z * front.z,
    ;
}

/// Twice the time moves the position twice as far, wherever the position
/// stays within its range.
pub proof fn lemma_position_doubles(
    position: WideVec3,
    frame: Frame,
    direction: CameraMovement,
    movement_speed: int,
    delta_time: int,
)
    requires
        ({
            let twice = displacement(frame, direction, movement_speed, 2 * delta_time);
            &&& i64::MIN <= position.x + twice.x <= i64::MAX
            &&& i64::MIN <= position.y + twice.y <= i64::MAX
            &&& i64::MIN <= position.z + twice.z <= i64::MAX
        }),
    ensures
        ({
            let once = displacement(frame, direction, movement_speed, delta_time);
            let twice = displacement(frame, direction, movement_speed, 2 * delta_time);
            &&& saturated(position.x + twice.x) - position.x == 2 * (saturated(position.x + once.x)
                - position.x)
            &&& saturated(position.y + twice.y) - position.y == 2 * (saturated(position.y + once.y)
                - position.y)
            &&& saturated(position.z + twice.z) - position.z == 2 * (saturated(position.z + once.z)
                - position.z)
        }),
{
    lemma_displacement_doubles(frame, direction, movement_speed, delta_time);
}

impl Default for Camera {
    /// A camera at the origin that looks along the negative z axis, with
    /// the y axis as "up".
    fn default() -> (camera: Camera)
        ensures
            camera.position == (WideVec3 { x: 0, y: 0, z: 0 }),
            camera.world_up == (Vec3 { x: 0, y: MICRO, z: 0 }),
            camera.front@ == (IntVec3 { x: 0, y: 0, z: -MICRO }),
            camera.right@ == (IntVec3 { x: MICRO as int, y: 0, z: 0 }),
            camera.up@ == (IntVec3 { x: 0, y: MICRO as int, z: 0 }),
            camera.yaw == DEFAULT_YAW,
            camera.pitch == DEFAULT_PITCH,
            camera.movement_speed == DEFAULT_MOVEMENT_SPEED,
            camera.mouse_sensitivity == DEFAULT_MOUSE_SENSITIVITY,
            camera.scroll_sensitivity == DEFAULT_SCROLL_SENSITIVITY,
            camera.fov == DEFAULT_FOV,
            camera.is_oriented(),
            camera.has_sound_frame(),
    {
        proof {
            lemma_default_frame();
        }
        let camera = Camera::new(
            WideVec3 { x: 0, y: 0, z: 0 },
            Vec3 { x: 0, y: MICRO, z: 0 },
            DEFAULT_YAW,
            DEFAULT_PITCH,
        );
        assert(camera.world_up@ == vertical(MICRO as int));
        camera
    }
}

impl Camera {
    /// The frame of the camera.
    pub open spec fn frame(&self) -> Frame {
        Frame { front: self.front@, right: self.right@, up: self.up@ }
    }

    /// Whether the frame is the one that belongs to the present yaw, pitch
    /// and `world_up`.
    pub open spec fn is_oriented(&self) -> bool {
        self.frame() == frame_of(self.yaw as int, self.pitch as int, self.world_up@)
    }

    /// Whether the look direction and `world_up` are neither parallel nor
    /// nothing, so that the frame is well defined.
    pub open spec fn is_nondegenerate(&self) -> bool {
        is_nondegenerate(self.yaw as int, self.pitch as int, self.world_up@)
    }

    /// Whether the pitch is within the limit and `world_up` lies along the
    /// y axis.
    pub open spec fn is_constrained(&self) -> bool {
        &&& -PITCH_LIMIT <= self.pitch <= PITCH_LIMIT
        &&& self.world_up.x == 0
        &&& self.world_up.z == 0
        &&& self.world_up.y != 0
    }

    /// Whether the frame is right-handed: the cross product of `right` and
    /// `front` is `up`, that of `front` and `up` is `right`, and `right` is
    /// at right angles to the direction of `world_up`, each within a
    /// hundred-thousandth.
    pub open spec fn is_right_handed(&self) -> bool {
        &&& self.right@.cross(self.front@).is_within(self.up@.scaled(MICRO as int), 10 * MICRO)
        &&& self.front@.cross(self.up@).is_within(self.right@.scaled(MICRO as int), 10 * MICRO)
        &&& self.right@.is_orthogonal_to(self.world_up@.normalized())
    }

    /// Whether the frame is as it should be: orthonormal and right-handed
    /// wherever it is well defined, and with `up` on the side of `world_up`
    /// wherever the pitch is within the limit and `world_up` lies along the
    /// y axis.
    pub open spec fn has_sound_frame(&self) -> bool {
        &&& self.is_constrained() ==> self.is_nondegenerate()
        &&& self.is_nondegenerate() ==> self.frame().is_orthonormal() && self.is_right_handed()
        &&& self.is_constrained() ==> self.up@.dot(self.world_up@) > 0
    }

    /// Whether `other` differs from this camera at most in position.
    pub open spec fn same_but_position(&self, other: &Camera) -> bool {
        &&& self.world_up == other.world_up
        &&& self.frame() == other.frame()
        &&& self.yaw == other.yaw
        &&& self.pitch == other.pitch
        &&& self.movement_speed == other.movement_speed
        &&& self.mouse_sensitivity == other.mouse_sensitivity
        &&& self.scroll_sensitivity == other.scroll_sensitivity
        &&& self.fov == other.fov
    }

    /// A camera at `position` with the given orientation, the default tuning
    /// values and the frame that belongs to the orientation.
    pub fn new(position: WideVec3, world_up: Vec3, yaw: i64, pitch: i64) -> (camera: Camera)
        ensures
            camera.position == position,
            camera.world_up == world_up,
            camera.yaw == yaw,
            camera.pitch == pitch,
            camera.movement_speed == DEFAULT_MOVEMENT_SPEED,
            camera.mouse_sensitivity == DEFAULT_MOUSE_SENSITIVITY,
            camera.scroll_sensitivity == DEFAULT_SCROLL_SENSITIVITY,
            camera.fov == DEFAULT_FOV,
            camera.is_oriented(),
            camera.has_sound_frame(),
    {
        let zero = Vec3 { x: 0, y: 0, z: 0 };
        let mut camera = Camera {
            position,
            world_up,
            front: zero,
            up: zero,
            right: zero,
            yaw,
            pitch,
            movement_speed: DEFAULT_MOVEMENT_SPEED,
            mouse_sensitivity: DEFAULT_MOUSE_SENSITIVITY,
            scroll_sensitivity: DEFAULT_SCROLL_SENSITIVITY,
            fov: DEFAULT_FOV,
        };
        camera.update_camera_vectors();
        camera
    }

    /// The view transform of the camera: the look-at from the position toward
    /// the point one `front` further on, with `up` as the vertical. Its rows
    /// are `right`, `up` and the opposite of `front`, each with the offset
    /// that takes the position to the origin: row by row, in millionths.
    pub fn get_view_matrix(&self) -> (m: Mat4)
        ensures
            forall|row: int, col: int|
                0 <= row < 4 && 0 <= col < 4 ==> #[trigger] m[row][col] == view_entry(
                    self.frame(),
                    self.position@,
                    row,
                    col,
                ),
    {
        view_of(&self.position, &self.right, &self.up, &self.front)
    }

    /// Moves the camera along one of its frame vectors by the distance that
    /// its speed covers in `delta_time` milliseconds. A component that would
    /// leave the range of the position stays at the end of the range.
    pub fn process_keyboard(&mut self, direction: CameraMovement, delta_time: u32)
        ensures
            final(self).same_but_position(old(self)),
            ({
                let d = displacement(
                    old(self).frame(),
                    direction,
                    old(self).movement_speed as int,
                    delta_time as int,
                );
                &&& final(self).position.x == saturated(old(self).position.x + d.x)
                &&& final(self).position.y == saturated(old(self).position.y + d.y)
                &&& final(self).position.z == saturated(old(self).position.z + d.z)
            }),
            delta_time == 0 ==> final(self).position == old(self).position,
            old(self).is_oriented() ==> final(self).is_oriented(),
            old(self).has_sound_frame() ==> final(self).has_sound_frame(),
    {
        assert(-0x8000_0000_0000_0000 < self.movement_speed * delta_time < 0x8000_0000_0000_0000)
            by (nonlinear_arith)
            requires
                -0x8000_0000 <= self.movement_speed < 0x8000_0000,
                0 <= delta_time < 0x1_0000_0000,
        ;
        let velocity: i64 = (self.movement_speed as i64) * (delta_time as i64);
        let (axis, step): (Vec3, i64) = match direction {
            CameraMovement::Forward => (self.front, velocity),
            CameraMovement::Backward => (self.front, -velocity),
            CameraMovement::Left => (self.right, -velocity),
            CameraMovement::Right => (self.right, velocity),
            CameraMovement::Up => (self.up, velocity),
            CameraMovement::Down => (self.up, -velocity),
        };
        proof {
            lemma_negated(axis.x as int, velocity as int);
            lemma_negated(axis.y as int, velocity as int);
            lemma_negated(axis.z as int, velocity as int);
        }
        self.position = WideVec3 {
            x: advance(self.position.x, axis.x, step),
            y: advance(self.position.y, axis.y, step),
            z: advance(self.position.z, axis.z, step),
        };
    }

    /// Turns the camera by a pointer delta scaled by the mouse sensitivity,
    /// keeps the pitch within the limit if `constrain_pitch` is set, and
    /// derives the frame anew.
    pub fn process_mouse_movement(&mut self, x_offset: i32, y_offset: i32, constrain_pitch: bool)
        ensures
            final(self).yaw == saturated(
                old(self).yaw + x_offset * old(self).mouse_sensitivity,
            ),
            final(self).pitch == next_pitch(
                old(self).pitch as int,
                y_offset as int,
                old(self).mouse_sensitivity as int,
                constrain_pitch,
            ),
            constrain_pitch ==> -PITCH_LIMIT <= final(self).pitch <= PITCH_LIMIT,
            constrain_pitch && old(self).pitch + y_offset * old(self).mouse_sensitivity
                > PITCH_LIMIT ==> final(self).pitch == PITCH_LIMIT,
            constrain_pitch && old(self).pitch + y_offset * old(self).mouse_sensitivity
                < -PITCH_LIMIT ==> final(self).pitch == -PITCH_LIMIT,
            final(self).is_oriented(),
            final(self).has_sound_frame(),
            final(self).position == old(self).position,
            final(self).world_up == old(self).world_up,
            final(self).movement_speed == old(self).movement_speed,
            final(self).mouse_sensitivity == old(self).mouse_sensitivity,
            final(self).scroll_sensitivity == old(self).scroll_sensitivity,
            final(self).fov == old(self).fov,
            x_offset == 0 && y_offset == 0 && old(self).is_oriented() && (constrain_pitch
                ==> -PITCH_LIMIT <= old(self).pitch <= PITCH_LIMIT) ==> *final(self) == *old(self),
    {
        self.yaw = advance(self.yaw, x_offset, self.mouse_sensitivity as i64);
        self.pitch = advance(self.pitch, y_offset, self.mouse_sensitivity as i64);
        if constrain_pitch {
            if self.pitch > PITCH_LIMIT {
                self.pitch = PITCH_LIMIT;
            }
            if self.pitch < -PITCH_LIMIT {
                self.pitch = -PITCH_LIMIT;
            }
        }
        self.update_camera_vectors();
    }

    /// Narrows the field of view by a scroll delta scaled by the scroll
    /// sensitivity, and keeps it between the narrowest and the widest.
    pub fn process_mouse_scroll(&mut self, y_offset: i32)
        ensures
            final(self).fov == clamp_int(
                old(self).fov - y_offset * old(self).scroll_sensitivity,
                FOV_MIN as int,
                FOV_MAX as int,
            ),
            FOV_MIN <= final(self).fov <= FOV_MAX,
            old(self).fov - y_offset * old(self).scroll_sensitivity <= FOV_MIN ==> final(self).fov
                == FOV_MIN,
            old(self).fov - y_offset * old(self).scroll_sensitivity >= FOV_MAX ==> final(self).fov
                == FOV_MAX,
            final(self).position == old(self).position,
            final(self).world_up == old(self).world_up,
            final(self).frame() == old(self).frame(),
            final(self).yaw == old(self).yaw,
            final(self).pitch == old(self).pitch,
            final(self).movement_speed == old(self).movement_speed,
            final(self).mouse_sensitivity == old(self).mouse_sensitivity,
            final(self).scroll_sensitivity == old(self).scroll_sensitivity,
            old(self).is_oriented() ==> final(self).is_oriented(),
            old(self).has_sound_frame() ==> final(self).has_sound_frame(),
    {
        assert(-0x4000_0000_0000_0000 < y_offset * self.scroll_sensitivity
            <= 0x4000_0000_0000_0000) by (nonlinear_arith)
            requires
                -0x8000_0000 <= y_offset < 0x8000_0000,
                -0x8000_0000 <= self.scroll_sensitivity < 0x8000_0000,
        ;
        let change: i128 = (y_offset as i128) * (self.scroll_sensitivity as i128);
        let wanted: i128 = self.fov as i128 - change;
        if wanted < FOV_MIN as i128 {
            self.fov = FOV_MIN;
        } else if wanted > FOV_MAX as i128 {
            self.fov = FOV_MAX;
        } else {
            self.fov = wanted as i64;
        }
    }

    /// Derives the frame from yaw, pitch and `world_up`.
    fn update_camera_vectors(&mut self)
        ensures
            final(self).is_oriented(),
            final(self).has_sound_frame(),
            final(self).position == old(self).position,
            final(self).world_up == old(self).world_up,
            final(self).yaw == old(self).yaw,
            final(self).pitch == old(self).pitch,
            final(self).movement_speed == old(self).movement_speed,
            final(self).mouse_sensitivity == old(self).mouse_sensitivity,
            final(self).scroll_sensitivity == old(self).scroll_sensitivity,
            final(self).fov == old(self).fov,
    {
        let cos_yaw: i64 = cos(self.yaw);
        let sin_yaw: i64 = sin(self.yaw);
        let cos_pitch: i64 = cos(self.pitch);
        let sin_pitch: i64 = sin(self.pitch);
        assert(-1_000_000_000_000_000_000 <= cos_yaw * cos_pitch <= 1_000_000_000_000_000_000)
            by (nonlinear_arith)
            requires
                -1_000_000_000 <= cos_yaw <= 1_000_000_000,
                -1_000_000_000 <= cos_pitch <= 1_000_000_000,
        ;
        assert(-1_000_000_000_000_000_000 <= sin_yaw * cos_pitch <= 1_000_000_000_000_000_000)
            by (nonlinear_arith)
            requires
                -1_000_000_000 <= sin_yaw <= 1_000_000_000,
                -1_000_000_000 <= cos_pitch <= 1_000_000_000,
        ;
        let direction = WideVec3 {
            x: cos_yaw * cos_pitch,
            y: sin_pitch * NANO,
            z: sin_yaw * cos_pitch,
        };
        let front = direction.normalize();
        let right = front.cross(&self.world_up).normalize();
        let up = right.cross(&front).normalize();
        self.front = front;
        self.right = right;
        self.up = up;
        proof {
            lemma_camera_orthonormal(*self);
            if self.is_nondegenerate() {
                lemma_camera_handed(*self);
            }
        }
    }
}

} // verus!
