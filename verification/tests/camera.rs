use flycam::camera::{
    Camera, CameraMovement, DEFAULT_FOV, DEFAULT_MOUSE_SENSITIVITY, DEFAULT_MOVEMENT_SPEED,
    DEFAULT_PITCH, DEFAULT_SCROLL_SENSITIVITY, DEFAULT_YAW, FOV_MAX, FOV_MIN, PITCH_LIMIT,
};
use flycam::vec3::{Vec3, WideVec3};

const ONE: i32 = 1_000_000;
const ORIGIN: WideVec3 = WideVec3 { x: 0, y: 0, z: 0 };
const WORLD_UP: Vec3 = Vec3 { x: 0, y: ONE, z: 0 };

fn looking_down_negative_z() -> Camera {
    Camera::new(ORIGIN, WORLD_UP, -90_000_000, 0)
}

fn dot(a: Vec3, b: Vec3) -> i64 {
    (a.x as i64) * (b.x as i64) + (a.y as i64) * (b.y as i64) + (a.z as i64) * (b.z as i64)
}

fn is_unit(v: Vec3) -> bool {
    let length = (dot(v, v) as f64).sqrt() / ONE as f64;
    (length - 1.0).abs() <= 1e-5
}

fn is_orthogonal(a: Vec3, b: Vec3) -> bool {
    (dot(a, b) as f64 / (ONE as f64 * ONE as f64)).abs() <= 1e-5
}

fn is_orthonormal(camera: &Camera) -> bool {
    is_unit(camera.front)
        && is_unit(camera.right)
        && is_unit(camera.up)
        && is_orthogonal(camera.front, camera.right)
        && is_orthogonal(camera.front, camera.up)
        && is_orthogonal(camera.right, camera.up)
}

fn near(value: i32, expected: f64) -> bool {
    (value as f64 / ONE as f64 - expected).abs() <= 1e-5
}

#[test]
fn new_stores_its_arguments_and_the_default_tuning() {
    let position = WideVec3 { x: 1, y: -2, z: 3 };
    let world_up = Vec3 { x: 0, y: 2 * ONE, z: 0 };
    let camera = Camera::new(position, world_up, 12_345_678, -7_000_000);
    assert_eq!(camera.position, position);
    assert_eq!(camera.world_up, world_up);
    assert_eq!(camera.yaw, 12_345_678);
    assert_eq!(camera.pitch, -7_000_000);
    assert_eq!(camera.movement_speed, 2_500);
    assert_eq!(camera.mouse_sensitivity, 75);
    assert_eq!(camera.scroll_sensitivity, 1_000);
    assert_eq!(camera.fov, 45_000_000);
    assert_eq!(DEFAULT_MOVEMENT_SPEED, 2_500);
    assert_eq!(DEFAULT_MOUSE_SENSITIVITY, 75);
    assert_eq!(DEFAULT_SCROLL_SENSITIVITY, 1_000);
    assert_eq!(DEFAULT_FOV, 45_000_000);
    assert!(is_orthonormal(&camera));
}

#[test]
fn default_camera_stands_at_the_origin_and_looks_along_negative_z() {
    let camera = Camera::default();
    assert_eq!(camera.position, ORIGIN);
    assert_eq!(camera.world_up, WORLD_UP);
    assert_eq!(camera.yaw, DEFAULT_YAW);
    assert_eq!(camera.yaw, -90_000_000);
    assert_eq!(camera.pitch, DEFAULT_PITCH);
    assert_eq!(camera.pitch, 0);
    assert_eq!(camera.fov, 45_000_000);
    assert_eq!(camera.front, Vec3 { x: 0, y: 0, z: -ONE });
    assert_eq!(camera.right, Vec3 { x: ONE, y: 0, z: 0 });
    assert_eq!(camera.up, Vec3 { x: 0, y: ONE, z: 0 });
}

#[test]
fn new_camera_looks_along_negative_z() {
    let camera = looking_down_negative_z();
    assert_eq!(camera.front, Vec3 { x: 0, y: 0, z: -ONE });
    assert_eq!(camera.right, Vec3 { x: ONE, y: 0, z: 0 });
    assert_eq!(camera.up, Vec3 { x: 0, y: ONE, z: 0 });
}

#[test]
fn yaw_of_nothing_looks_along_positive_x() {
    let camera = Camera::new(ORIGIN, WORLD_UP, 0, 0);
    assert_eq!(camera.front, Vec3 { x: ONE, y: 0, z: 0 });
    assert_eq!(camera.right, Vec3 { x: 0, y: 0, z: ONE });
    assert_eq!(camera.up, Vec3 { x: 0, y: ONE, z: 0 });
}

#[test]
fn frame_is_orthonormal_for_every_yaw_and_clamped_pitch() {
    let mut yaw: i64 = -400_000_000;
    while yaw <= 400_000_000 {
        let mut pitch: i64 = -PITCH_LIMIT;
        while pitch <= PITCH_LIMIT {
            let camera = Camera::new(ORIGIN, WORLD_UP, yaw, pitch);
            assert!(is_orthonormal(&camera), "yaw {} pitch {}", yaw, pitch);
            assert!(is_orthogonal(camera.right, WORLD_UP), "yaw {} pitch {}", yaw, pitch);
            pitch += 5_933_333;
        }
        yaw += 13_777_777;
    }
}

#[test]
fn frame_is_orthonormal_at_the_pitch_limits() {
    for pitch in [PITCH_LIMIT, -PITCH_LIMIT] {
        for yaw in [0, 45_000_000, -90_000_000, 123_456_789, 359_999_999] {
            let camera = Camera::new(ORIGIN, WORLD_UP, yaw, pitch);
            assert!(is_orthonormal(&camera), "yaw {} pitch {}", yaw, pitch);
        }
    }
}

#[test]
fn frame_is_right_handed() {
    let camera = Camera::new(ORIGIN, WORLD_UP, 30_000_000, 20_000_000);
    let up = camera.right.cross(&camera.front).normalize();
    assert_eq!(up, camera.up);
    assert!(camera.up.y > 0);
}

#[test]
fn frame_follows_the_real_sine_and_cosine() {
    let mut yaw: i64 = -180_000_000;
    while yaw <= 180_000_000 {
        let mut pitch: i64 = -80_000_000;
        while pitch <= 80_000_000 {
            let camera = Camera::new(ORIGIN, WORLD_UP, yaw, pitch);
            let y = (yaw as f64 / 1e6).to_radians();
            let p = (pitch as f64 / 1e6).to_radians();
            assert!(near(camera.front.x, y.cos() * p.cos()), "yaw {} pitch {}", yaw, pitch);
            assert!(near(camera.front.y, p.sin()), "yaw {} pitch {}", yaw, pitch);
            assert!(near(camera.front.z, y.sin() * p.cos()), "yaw {} pitch {}", yaw, pitch);
            assert!(near(camera.right.x, -y.sin()), "yaw {} pitch {}", yaw, pitch);
            assert!(near(camera.right.y, 0.0), "yaw {} pitch {}", yaw, pitch);
            assert!(near(camera.right.z, y.cos()), "yaw {} pitch {}", yaw, pitch);
            pitch += 16_000_000;
        }
        yaw += 7_500_000;
    }
}

#[test]
fn straight_up_without_constraint_has_no_frame() {
    let camera = Camera::new(ORIGIN, WORLD_UP, -90_000_000, 90_000_000);
    assert_eq!(camera.front, Vec3 { x: 0, y: ONE, z: 0 });
    assert_eq!(camera.right, Vec3 { x: 0, y: 0, z: 0 });
    assert_eq!(camera.up, Vec3 { x: 0, y: 0, z: 0 });
}

#[test]
fn forward_for_one_second_moves_two_and_a_half_units() {
    let mut camera = looking_down_negative_z();
    camera.process_keyboard(CameraMovement::Forward, 1_000);
    assert_eq!(camera.position, WideVec3 { x: 0, y: 0, z: -2_500_000_000_000 });
}

#[test]
fn each_direction_moves_along_its_frame_vector() {
    let moves = [
        (CameraMovement::Forward, WideVec3 { x: 0, y: 0, z: -2_500_000_000_000 }),
        (CameraMovement::Backward, WideVec3 { x: 0, y: 0, z: 2_500_000_000_000 }),
        (CameraMovement::Left, WideVec3 { x: -2_500_000_000_000, y: 0, z: 0 }),
        (CameraMovement::Right, WideVec3 { x: 2_500_000_000_000, y: 0, z: 0 }),
        (CameraMovement::Up, WideVec3 { x: 0, y: 2_500_000_000_000, z: 0 }),
        (CameraMovement::Down, WideVec3 { x: 0, y: -2_500_000_000_000, z: 0 }),
    ];
    for (direction, expected) in moves {
        let mut camera = looking_down_negative_z();
        camera.process_keyboard(direction, 1_000);
        assert_eq!(camera.position, expected);
    }
}

#[test]
fn up_moves_along_the_camera_up_not_world_up() {
    let mut camera = Camera::new(ORIGIN, WORLD_UP, -90_000_000, 45_000_000);
    let up = camera.up;
    assert!(up.z > 700_000 && up.y > 700_000);
    camera.process_keyboard(CameraMovement::Up, 400);
    assert_eq!(
        camera.position,
        WideVec3 {
            x: up.x as i64 * 1_000_000,
            y: up.y as i64 * 1_000_000,
            z: up.z as i64 * 1_000_000,
        }
    );
}

#[test]
fn keyboard_leaves_the_orientation_alone() {
    let mut camera = Camera::new(ORIGIN, WORLD_UP, 33_000_000, 21_000_000);
    let before = camera;
    camera.process_keyboard(CameraMovement::Right, 16);
    assert_eq!(camera.front, before.front);
    assert_eq!(camera.right, before.right);
    assert_eq!(camera.up, before.up);
    assert_eq!(camera.yaw, before.yaw);
    assert_eq!(camera.pitch, before.pitch);
    assert_eq!(camera.fov, before.fov);
    assert_eq!(camera.world_up, before.world_up);
    assert_eq!(camera.movement_speed, before.movement_speed);
}

#[test]
fn no_elapsed_time_is_no_movement() {
    let start = WideVec3 { x: 5, y: 6, z: 7 };
    let mut camera = Camera::new(start, WORLD_UP, 10_000_000, 20_000_000);
    for direction in [
        CameraMovement::Forward,
        CameraMovement::Backward,
        CameraMovement::Left,
        CameraMovement::Right,
        CameraMovement::Up,
        CameraMovement::Down,
    ] {
        camera.process_keyboard(direction, 0);
        assert_eq!(camera.position, start);
    }
}

#[test]
fn twice_the_time_is_twice_the_way() {
    for (yaw, pitch) in [(-90_000_000, 0), (37_000_000, 12_000_000), (200_000_000, -60_000_000)] {
        for t in [1u32, 16, 17, 333, 1_000] {
            let mut once = Camera::new(ORIGIN, WORLD_UP, yaw, pitch);
            let mut twice = once;
            once.process_keyboard(CameraMovement::Forward, t);
            twice.process_keyboard(CameraMovement::Forward, 2 * t);
            assert_eq!(twice.position.x, 2 * once.position.x);
            assert_eq!(twice.position.y, 2 * once.position.y);
            assert_eq!(twice.position.z, 2 * once.position.z);
        }
    }
}

#[test]
fn two_steps_add_up_to_one() {
    let mut stepwise = Camera::new(ORIGIN, WORLD_UP, 37_000_000, 12_000_000);
    let mut at_once = stepwise;
    stepwise.process_keyboard(CameraMovement::Left, 7);
    stepwise.process_keyboard(CameraMovement::Left, 9);
    at_once.process_keyboard(CameraMovement::Left, 16);
    assert_eq!(stepwise.position, at_once.position);
}

#[test]
fn position_stays_at_the_end_of_its_range() {
    let far = WideVec3 { x: 0, y: 0, z: i64::MIN + 10 };
    let mut camera = Camera::new(far, WORLD_UP, -90_000_000, 0);
    camera.process_keyboard(CameraMovement::Forward, 1_000);
    assert_eq!(camera.position, WideVec3 { x: 0, y: 0, z: i64::MIN });
    camera.movement_speed = i32::MAX;
    camera.process_keyboard(CameraMovement::Backward, u32::MAX);
    assert_eq!(camera.position, WideVec3 { x: 0, y: 0, z: i64::MAX });
    camera.movement_speed = i32::MIN;
    camera.process_keyboard(CameraMovement::Backward, u32::MAX);
    assert_eq!(camera.position, WideVec3 { x: 0, y: 0, z: i64::MIN });
}

#[test]
fn pointer_movement_turns_by_the_sensitivity() {
    let mut camera = looking_down_negative_z();
    camera.process_mouse_movement(200_000, 0, true);
    assert_eq!(camera.yaw, -75_000_000);
    assert_eq!(camera.pitch, 0);
    let yaw = (-75.0f64).to_radians();
    assert!(near(camera.front.x, yaw.cos()));
    assert!(near(camera.front.y, 0.0));
    assert!(near(camera.front.z, yaw.sin()));
    assert_eq!(camera.front.y, 0);
    assert!(is_orthonormal(&camera));
}

#[test]
fn pointer_movement_raises_the_pitch() {
    let mut camera = looking_down_negative_z();
    camera.process_mouse_movement(0, 400_000, true);
    assert_eq!(camera.yaw, -90_000_000);
    assert_eq!(camera.pitch, 30_000_000);
    assert!(near(camera.front.y, 0.5));
    camera.process_mouse_movement(-1_000, -1_000, true);
    assert_eq!(camera.yaw, -90_075_000);
    assert_eq!(camera.pitch, 29_925_000);
}

#[test]
fn pointer_movement_uses_the_present_sensitivity() {
    let mut camera = looking_down_negative_z();
    camera.mouse_sensitivity = 100;
    camera.process_mouse_movement(10_000, -20_000, true);
    assert_eq!(camera.yaw, -89_000_000);
    assert_eq!(camera.pitch, -2_000_000);
}

#[test]
fn pitch_is_clamped_at_the_limit() {
    let mut camera = looking_down_negative_z();
    camera.process_mouse_movement(0, 2_000_000, true);
    assert_eq!(camera.pitch, 89_000_000);
    assert_eq!(camera.pitch, PITCH_LIMIT);
    assert!(is_orthonormal(&camera));
    camera.process_mouse_movement(0, 1, true);
    assert_eq!(camera.pitch, 89_000_000);
    camera.process_mouse_movement(0, -1, true);
    assert_eq!(camera.pitch, 88_999_925);
}

#[test]
fn pitch_is_clamped_at_the_lower_limit() {
    let mut camera = looking_down_negative_z();
    camera.process_mouse_movement(0, -2_000_000, true);
    assert_eq!(camera.pitch, -89_000_000);
    assert!(is_orthonormal(&camera));
    camera.process_mouse_movement(0, i32::MIN, true);
    assert_eq!(camera.pitch, -89_000_000);
    camera.process_mouse_movement(0, i32::MAX, true);
    assert_eq!(camera.pitch, 89_000_000);
}

#[test]
fn pitch_just_below_the_limit_is_kept() {
    let mut camera = Camera::new(ORIGIN, WORLD_UP, 0, 88_999_000);
    camera.process_mouse_movement(0, 13, true);
    assert_eq!(camera.pitch, 88_999_975);
    camera.process_mouse_movement(0, 1, true);
    assert_eq!(camera.pitch, 89_000_000);
}

#[test]
fn pitch_runs_free_without_constraint() {
    let mut camera = looking_down_negative_z();
    camera.process_mouse_movement(0, 2_000_000, false);
    assert_eq!(camera.pitch, 150_000_000);
    camera.process_mouse_movement(0, 0, true);
    assert_eq!(camera.pitch, 89_000_000);
}

#[test]
fn no_pointer_movement_changes_nothing() {
    let mut camera = Camera::new(WideVec3 { x: 1, y: 2, z: 3 }, WORLD_UP, 77_123_456, -42_654_321);
    camera.process_mouse_scroll(7_000);
    camera.process_keyboard(CameraMovement::Up, 100);
    let before = camera;
    camera.process_mouse_movement(0, 0, true);
    assert_eq!(camera.yaw, before.yaw);
    assert_eq!(camera.pitch, before.pitch);
    assert_eq!(camera.front, before.front);
    assert_eq!(camera.right, before.right);
    assert_eq!(camera.up, before.up);
    assert_eq!(camera.position, before.position);
    assert_eq!(camera.fov, before.fov);
    camera.process_mouse_movement(0, 0, false);
    assert_eq!(camera.yaw, before.yaw);
    assert_eq!(camera.pitch, before.pitch);
    assert_eq!(camera.front, before.front);
}

#[test]
fn yaw_stays_at_the_end_of_its_range() {
    let mut camera = Camera::new(ORIGIN, WORLD_UP, i64::MAX - 5, 0);
    camera.process_mouse_movement(1, 0, true);
    assert_eq!(camera.yaw, i64::MAX);
    let mut other = Camera::new(ORIGIN, WORLD_UP, i64::MIN + 5, 0);
    other.process_mouse_movement(-1, 0, true);
    assert_eq!(other.yaw, i64::MIN);
}

#[test]
fn scroll_narrows_the_field_of_view() {
    let mut camera = Camera::default();
    camera.process_mouse_scroll(1_000);
    assert_eq!(camera.fov, 44_000_000);
    camera.process_mouse_scroll(-2_500);
    assert_eq!(camera.fov, 46_500_000);
    camera.scroll_sensitivity = 2_000;
    camera.process_mouse_scroll(3_000);
    assert_eq!(camera.fov, 40_500_000);
}

#[test]
fn large_scroll_snaps_to_the_narrowest() {
    let mut camera = Camera::default();
    camera.process_mouse_scroll(100_000);
    assert_eq!(camera.fov, 1_000_000);
    assert_eq!(camera.fov, FOV_MIN);
}

#[test]
fn large_scroll_back_snaps_to_the_widest() {
    let mut camera = Camera::default();
    camera.process_mouse_scroll(-100_000);
    assert_eq!(camera.fov, 90_000_000);
    assert_eq!(camera.fov, FOV_MAX);
}

#[test]
fn repeated_scrolls_stay_within_the_bounds() {
    let mut camera = Camera::default();
    let steps = [3_000, 40_000, 10_000, -200_000, -1, 1, i32::MAX, i32::MIN, 89_000, -500];
    for round in 0..50 {
        for step in steps {
            camera.process_mouse_scroll(step + round);
            assert!(FOV_MIN <= camera.fov && camera.fov <= FOV_MAX);
        }
    }
}

#[test]
fn scroll_reaches_the_bounds_exactly() {
    let mut camera = Camera::default();
    camera.process_mouse_scroll(44_000);
    assert_eq!(camera.fov, 1_000_000);
    camera.process_mouse_scroll(-89_000);
    assert_eq!(camera.fov, 90_000_000);
    camera.process_mouse_scroll(1);
    assert_eq!(camera.fov, 89_999_000);
}

#[test]
fn scroll_brings_a_stray_field_of_view_back() {
    let mut camera = Camera::default();
    camera.fov = 500_000_000;
    camera.process_mouse_scroll(0);
    assert_eq!(camera.fov, 90_000_000);
    camera.fov = i64::MIN;
    camera.scroll_sensitivity = i32::MAX;
    camera.process_mouse_scroll(i32::MAX);
    assert_eq!(camera.fov, 1_000_000);
}

#[test]
fn scroll_leaves_the_rest_alone() {
    let mut camera = Camera::new(WideVec3 { x: 9, y: 8, z: 7 }, WORLD_UP, 5_000_000, 6_000_000);
    let before = camera;
    camera.process_mouse_scroll(12_345);
    assert_eq!(camera.position, before.position);
    assert_eq!(camera.front, before.front);
    assert_eq!(camera.right, before.right);
    assert_eq!(camera.up, before.up);
    assert_eq!(camera.yaw, before.yaw);
    assert_eq!(camera.pitch, before.pitch);
}

#[test]
fn frame_is_orthonormal_over_a_short_world_up() {
    let short_up = Vec3 { x: 0, y: 1, z: 0 };
    let camera = Camera::new(ORIGIN, short_up, -45_000_000, 89_000_000);
    assert!(is_orthonormal(&camera));
    assert_eq!(camera.right, Vec3 { x: 707_106, y: 0, z: 707_106 });
    assert_eq!(camera.right.y, 0);
    assert!(camera.up.y > 0);
    let mut yaw: i64 = -360_000_000;
    while yaw <= 360_000_000 {
        for pitch in [-PITCH_LIMIT, -60_000_000, 0, 1, 45_000_000, PITCH_LIMIT] {
            for world_up in [short_up, Vec3 { x: 0, y: -1, z: 0 }, Vec3 { x: 0, y: 7, z: 0 }] {
                let camera = Camera::new(ORIGIN, world_up, yaw, pitch);
                assert!(is_orthonormal(&camera), "yaw {} pitch {}", yaw, pitch);
            }
        }
        yaw += 9_876_543;
    }
}

#[test]
fn frame_is_orthonormal_over_a_slanted_world_up() {
    for world_up in [
        Vec3 { x: 1, y: 2, z: 3 },
        Vec3 { x: 300_000, y: 900_000, z: -100_000 },
        Vec3 { x: -5, y: 0, z: 0 },
        Vec3 { x: i32::MAX, y: i32::MIN, z: i32::MAX },
    ] {
        let mut yaw: i64 = -180_000_000;
        while yaw < 180_000_000 {
            for pitch in [-80_000_000, -15_000_000, 40_000_000, 75_000_000] {
                let camera = Camera::new(ORIGIN, world_up, yaw, pitch);
                assert!(is_orthonormal(&camera), "{:?} yaw {} pitch {}", world_up, yaw, pitch);
            }
            yaw += 31_000_000;
        }
    }
}

#[test]
fn frame_is_right_handed_with_up_on_the_side_of_world_up() {
    let close = |a: i64, b: i32| (a - (b as i64) * 1_000_000).abs() <= 10_000_000;
    for world_up in [WORLD_UP, Vec3 { x: 0, y: 1, z: 0 }, Vec3 { x: 200_000, y: 900_000, z: 0 }] {
        let mut yaw: i64 = -180_000_000;
        while yaw < 180_000_000 {
            for pitch in [-PITCH_LIMIT, -30_000_000, 0, 60_000_000, PITCH_LIMIT] {
                let camera = Camera::new(ORIGIN, world_up, yaw, pitch);
                let (f, r, u) = (camera.front, camera.right, camera.up);
                let above = r.cross(&f);
                assert!(close(above.x, u.x) && close(above.y, u.y) && close(above.z, u.z));
                let across = f.cross(&u);
                assert!(close(across.x, r.x) && close(across.y, r.y) && close(across.z, r.z));
                assert!(dot(u, world_up) > 0, "{:?} yaw {} pitch {}", world_up, yaw, pitch);
                let unit_up = world_up.widen().normalize();
                assert!(is_orthogonal(r, unit_up));
            }
            yaw += 29_000_000;
        }
    }
}

#[test]
fn twice_the_time_moves_the_position_twice_as_far() {
    let start = WideVec3 { x: 123_456_789, y: -987_654_321, z: 5 };
    for direction in [CameraMovement::Forward, CameraMovement::Left, CameraMovement::Down] {
        let mut once = Camera::new(start, WORLD_UP, 37_000_000, 12_000_000);
        let mut twice = once;
        once.process_keyboard(direction, 250);
        twice.process_keyboard(direction, 500);
        assert_eq!(twice.position.x - start.x, 2 * (once.position.x - start.x));
        assert_eq!(twice.position.y - start.y, 2 * (once.position.y - start.y));
        assert_eq!(twice.position.z - start.z, 2 * (once.position.z - start.z));
    }
}

#[test]
fn up_grazes_a_world_up_that_is_a_millionth_from_the_look_direction() {
    let slanted = Vec3 { x: ONE, y: ONE, z: 0 };
    let grazing = Camera::new(ORIGIN, slanted, 100, 45_000_000);
    assert_eq!(grazing.front, Vec3 { x: 707_106, y: 707_106, z: 1 });
    assert_eq!(grazing.right, Vec3 { x: -707_106, y: 707_106, z: 0 });
    assert_eq!(grazing.up, Vec3 { x: 0, y: 0, z: -ONE });
    assert!(is_orthonormal(&grazing));
    assert_eq!(dot(grazing.up, slanted), 0);
    let apart = Camera::new(ORIGIN, slanted, 200, 45_000_000);
    assert_eq!(apart.up, Vec3 { x: 1, y: 1, z: -999_999 });
    assert!(dot(apart.up, slanted) > 0);
    let parallel = Camera::new(ORIGIN, slanted, 50, 45_000_000);
    assert_eq!(parallel.right, Vec3 { x: 0, y: 0, z: 0 });
    assert_eq!(parallel.up, Vec3 { x: 0, y: 0, z: 0 });
}
