use flycam::camera::Camera;
use flycam::pointer::PointerTracker;

#[test]
fn first_position_gives_no_movement() {
    let mut tracker = PointerTracker::new();
    assert_eq!(tracker.last, None);
    assert_eq!(tracker.offsets(400_000, 300_000), (0, 0));
    assert_eq!(tracker.last, Some((400_000, 300_000)));
}

#[test]
fn later_positions_give_the_difference() {
    let mut tracker = PointerTracker::new();
    tracker.offsets(400_000, 300_000);
    assert_eq!(tracker.offsets(410_000, 290_000), (10_000, 10_000));
    assert_eq!(tracker.offsets(405_000, 295_500), (-5_000, -5_500));
    assert_eq!(tracker.offsets(405_000, 295_500), (0, 0));
    assert_eq!(tracker.last, Some((405_000, 295_500)));
}

#[test]
fn differences_stay_within_range() {
    let mut tracker = PointerTracker::new();
    tracker.offsets(i32::MIN, i32::MIN);
    assert_eq!(tracker.offsets(i32::MAX, i32::MAX), (i32::MAX, i32::MIN));
    assert_eq!(tracker.offsets(i32::MIN, i32::MIN), (i32::MIN, i32::MAX));
}

#[test]
fn tracked_pointer_turns_the_camera() {
    let mut tracker = PointerTracker::new();
    let mut camera = Camera::default();
    for (x, y) in [(400_000, 300_000), (500_000, 300_000), (600_000, 200_000)] {
        let (dx, dy) = tracker.offsets(x, y);
        camera.process_mouse_movement(dx, dy, true);
    }
    assert_eq!(camera.yaw, -75_000_000);
    assert_eq!(camera.pitch, 7_500_000);
}
