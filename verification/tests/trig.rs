use flycam::trig::{cos, sin, FULL_TURN, HALF_TURN, NANO, QUARTER_TURN};

fn degrees(angle: i64) -> f64 {
    angle as f64 / 1_000_000.0
}

fn close(value: i64, expected: f64) -> bool {
    (value as f64 / NANO as f64 - expected).abs() < 1e-8
}

#[test]
fn sine_and_cosine_at_the_quarter_turns() {
    assert_eq!(sin(0), 0);
    assert_eq!(cos(0), NANO);
    assert_eq!(sin(QUARTER_TURN), NANO);
    assert_eq!(cos(QUARTER_TURN), 0);
    assert_eq!(sin(HALF_TURN), 0);
    assert_eq!(cos(HALF_TURN), -NANO);
    assert_eq!(sin(HALF_TURN + QUARTER_TURN), -NANO);
    assert_eq!(cos(HALF_TURN + QUARTER_TURN), 0);
    assert_eq!(sin(-QUARTER_TURN), -NANO);
    assert_eq!(cos(-QUARTER_TURN), 0);
}

#[test]
fn sine_of_thirty_degrees_is_a_half() {
    assert_eq!(sin(30_000_000), 499_999_999);
    assert_eq!(cos(60_000_000), 499_999_999);
    assert_eq!(sin(150_000_000), 499_999_999);
    assert_eq!(sin(-30_000_000), -499_999_999);
    assert_eq!(sin(210_000_000), -499_999_999);
}

#[test]
fn sine_of_one_degree() {
    assert_eq!(sin(1_000_000), 17_452_405);
    assert_eq!(cos(89_000_000), 17_452_405);
}

#[test]
fn sine_and_cosine_follow_the_real_functions() {
    let mut angle: i64 = -720_000_000;
    while angle <= 720_000_000 {
        let radians = degrees(angle).to_radians();
        assert!(close(sin(angle), radians.sin()), "sin at {}", angle);
        assert!(close(cos(angle), radians.cos()), "cos at {}", angle);
        angle += 123_457;
    }
}

#[test]
fn sine_is_odd_and_cosine_even() {
    let mut angle: i64 = 0;
    while angle <= 400_000_000 {
        assert_eq!(sin(-angle), -sin(angle));
        assert_eq!(cos(-angle), cos(angle));
        angle += 777_777;
    }
}

#[test]
fn sine_and_cosine_repeat_after_a_full_turn() {
    let mut angle: i64 = -500_000_000;
    while angle <= 500_000_000 {
        assert_eq!(sin(angle + FULL_TURN), sin(angle));
        assert_eq!(cos(angle - FULL_TURN), cos(angle));
        assert_eq!(cos(angle), sin(angle + QUARTER_TURN));
        angle += 1_234_567;
    }
}

#[test]
fn sine_and_cosine_of_the_largest_angles() {
    for angle in [i64::MAX, i64::MIN, i64::MAX - 1, i64::MIN + 1] {
        let s = sin(angle);
        let c = cos(angle);
        assert!(-NANO <= s && s <= NANO);
        assert!(-NANO <= c && c <= NANO);
        let reduced = angle.rem_euclid(FULL_TURN);
        assert_eq!(s, sin(reduced));
        assert_eq!(c, cos(reduced));
    }
}

#[test]
fn sine_and_cosine_are_never_both_small() {
    let mut angle: i64 = -360_000_000;
    while angle <= 360_000_000 {
        assert!(sin(angle).abs() >= 450_000_000 || cos(angle).abs() >= 450_000_000);
        angle += 250_000;
    }
}
