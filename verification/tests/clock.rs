use flycam::camera::{Camera, CameraMovement};
use flycam::clock::FrameClock;
use flycam::vec3::WideVec3;

#[test]
fn clock_gives_the_time_between_frames() {
    let mut clock = FrameClock::new(1_000);
    assert_eq!(clock.last, 1_000);
    assert_eq!(clock.tick(1_016), 16);
    assert_eq!(clock.tick(1_033), 17);
    assert_eq!(clock.tick(1_033), 0);
    assert_eq!(clock.last, 1_033);
}

#[test]
fn clock_that_goes_back_gives_no_time() {
    let mut clock = FrameClock::new(500);
    assert_eq!(clock.tick(400), 0);
    assert_eq!(clock.last, 400);
    assert_eq!(clock.tick(450), 50);
}

#[test]
fn clock_holds_no_more_than_one_step() {
    let mut clock = FrameClock::new(0);
    assert_eq!(clock.tick(u32::MAX as u64), u32::MAX);
    let mut other = FrameClock::new(0);
    assert_eq!(other.tick(u32::MAX as u64 + 1), u32::MAX);
    assert_eq!(other.tick(u64::MAX), u32::MAX);
    assert_eq!(other.last, u64::MAX);
}

#[test]
fn clocked_frames_move_the_camera() {
    let mut clock = FrameClock::new(0);
    let mut camera = Camera::default();
    for now in [16, 33, 50, 1_000] {
        let elapsed = clock.tick(now);
        camera.process_keyboard(CameraMovement::Forward, elapsed);
    }
    assert_eq!(camera.position, WideVec3 { x: 0, y: 0, z: -2_500_000_000_000 });
}
