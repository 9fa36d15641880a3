use flycam::fixed::isqrt;
use flycam::vec3::{Vec3, WideVec3};

#[test]
fn integer_square_roots() {
    assert_eq!(isqrt(0), 0);
    assert_eq!(isqrt(1), 1);
    assert_eq!(isqrt(3), 1);
    assert_eq!(isqrt(4), 2);
    assert_eq!(isqrt(99), 9);
    assert_eq!(isqrt(100), 10);
    assert_eq!(isqrt(1_000_000_000_000), 1_000_000);
    assert_eq!(isqrt(999_999_999_999), 999_999);
    assert_eq!(isqrt(u128::MAX), u64::MAX);
    assert_eq!(isqrt((u64::MAX as u128) * (u64::MAX as u128)), u64::MAX);
    assert_eq!(isqrt((u64::MAX as u128) * (u64::MAX as u128) - 1), u64::MAX - 1);
}

#[test]
fn integer_square_root_brackets_its_argument() {
    let mut n: u128 = 1;
    while n < u128::MAX / 7 {
        let r = isqrt(n) as u128;
        assert!(r * r <= n);
        assert!(n < (r + 1) * (r + 1));
        n = n * 7 + 3;
    }
}

#[test]
fn cross_product_of_the_axes() {
    let x = Vec3 { x: 1, y: 0, z: 0 };
    let y = Vec3 { x: 0, y: 1, z: 0 };
    let z = Vec3 { x: 0, y: 0, z: 1 };
    assert_eq!(x.cross(&y), WideVec3 { x: 0, y: 0, z: 1 });
    assert_eq!(y.cross(&z), WideVec3 { x: 1, y: 0, z: 0 });
    assert_eq!(z.cross(&x), WideVec3 { x: 0, y: 1, z: 0 });
    assert_eq!(y.cross(&x), WideVec3 { x: 0, y: 0, z: -1 });
}

#[test]
fn cross_product_of_two_vectors() {
    let a = Vec3 { x: 2, y: 3, z: 4 };
    let b = Vec3 { x: 5, y: 6, z: 7 };
    assert_eq!(a.cross(&b), WideVec3 { x: -3, y: 6, z: -3 });
    assert_eq!(a.cross(&a), WideVec3 { x: 0, y: 0, z: 0 });
}

#[test]
fn cross_product_of_the_widest_components() {
    let a = Vec3 { x: i32::MIN, y: i32::MIN, z: i32::MAX };
    let b = Vec3 { x: i32::MAX, y: i32::MIN, z: i32::MIN };
    let min = i32::MIN as i64;
    let max = i32::MAX as i64;
    assert_eq!(
        a.cross(&b),
        WideVec3 { x: min * min - max * min, y: max * max - min * min, z: min * min - min * max }
    );
}

#[test]
fn normalize_scales_to_one_million() {
    assert_eq!(WideVec3 { x: 3, y: 0, z: 4 }.normalize(), Vec3 { x: 600_000, y: 0, z: 800_000 });
    assert_eq!(
        WideVec3 { x: -3, y: 4, z: 0 }.normalize(),
        Vec3 { x: -600_000, y: 800_000, z: 0 }
    );
    assert_eq!(WideVec3 { x: 0, y: 0, z: -7 }.normalize(), Vec3 { x: 0, y: 0, z: -1_000_000 });
    assert_eq!(
        WideVec3 { x: 2_000_000, y: 0, z: 0 }.normalize(),
        Vec3 { x: 1_000_000, y: 0, z: 0 }
    );
}

#[test]
fn normalize_rounds_toward_zero() {
    assert_eq!(
        WideVec3 { x: 1_000, y: -1_000, z: 1_000 }.normalize(),
        Vec3 { x: 577_350, y: -577_350, z: 577_350 }
    );
    assert_eq!(
        WideVec3 { x: 2, y: 3, z: 6 }.normalize(),
        Vec3 { x: 285_714, y: 428_571, z: 857_142 }
    );
    assert_eq!(
        WideVec3 { x: -2, y: -3, z: -6 }.normalize(),
        Vec3 { x: -285_714, y: -428_571, z: -857_142 }
    );
}

#[test]
fn normalize_of_the_shortest_vectors_is_one_long() {
    assert_eq!(
        WideVec3 { x: 1, y: 1, z: 1 }.normalize(),
        Vec3 { x: 577_350, y: 577_350, z: 577_350 }
    );
    assert_eq!(WideVec3 { x: 1, y: 0, z: 0 }.normalize(), Vec3 { x: 1_000_000, y: 0, z: 0 });
    assert_eq!(
        WideVec3 { x: 0, y: -1, z: 1 }.normalize(),
        Vec3 { x: 0, y: -707_106, z: 707_106 }
    );
    assert_eq!(
        WideVec3 { x: 12_340, y: 0, z: 12_340 }.normalize(),
        Vec3 { x: 707_106, y: 0, z: 707_106 }
    );
}

#[test]
fn normalize_at_the_edge_of_short() {
    let edge: i64 = 0x8000_0000;
    for v in [
        WideVec3 { x: edge - 1, y: 1 - edge, z: edge - 1 },
        WideVec3 { x: edge, y: 1 - edge, z: edge - 1 },
        WideVec3 { x: -edge, y: -edge, z: edge },
    ] {
        let n = v.normalize();
        assert_eq!((n.x, n.y.abs(), n.z), (n.x.signum() * 577_350, 577_350, 577_350), "{:?}", v);
    }
}

#[test]
fn normalize_of_nothing_is_nothing() {
    assert_eq!(WideVec3 { x: 0, y: 0, z: 0 }.normalize(), Vec3 { x: 0, y: 0, z: 0 });
}

#[test]
fn normalize_of_the_widest_components() {
    let v = WideVec3 { x: i64::MIN, y: i64::MAX, z: i64::MIN }.normalize();
    assert_eq!(v, Vec3 { x: -577_350, y: 577_350, z: -577_350 });
    let w = WideVec3 { x: i64::MIN, y: 0, z: 0 }.normalize();
    assert_eq!(w, Vec3 { x: -1_000_000, y: 0, z: 0 });
}

#[test]
fn normalize_of_a_long_vector_is_one_long() {
    let samples = [
        WideVec3 { x: 1_000_000, y: 2_000_000, z: 3_000_000 },
        WideVec3 { x: -123_456_789, y: 987_654_321, z: 5 },
        WideVec3 { x: 999_999, y: 1, z: -1_414 },
        WideVec3 { x: 700_000_000_000_000_000, y: -1, z: 700_000_000_000_000_000 },
    ];
    for v in samples {
        let n = v.normalize();
        let square = (n.x as i64) * (n.x as i64) + (n.y as i64) * (n.y as i64)
            + (n.z as i64) * (n.z as i64);
        assert!(square >= 1_000_000_000_000 - 6_000_000, "{:?}", v);
        assert!(square <= 1_000_000_000_000 + 935, "{:?}", v);
    }
}

#[test]
fn normalize_of_every_length_is_one_long() {
    let samples = [
        WideVec3 { x: 1, y: 2, z: -1 },
        WideVec3 { x: 3, y: 0, z: -7 },
        WideVec3 { x: 17_451, y: 0, z: 17_452 },
        WideVec3 { x: 100_000, y: 0, z: 1 },
        WideVec3 { x: 57_736, y: -57_736, z: 57_736 },
        WideVec3 { x: 99_999, y: 447, z: 3 },
        WideVec3 { x: -1, y: 100_001, z: 449 },
    ];
    for v in samples {
        let n = v.normalize();
        let square = (n.x as i64) * (n.x as i64) + (n.y as i64) * (n.y as i64)
            + (n.z as i64) * (n.z as i64);
        assert!(square >= 1_000_000_000_000 - 6_000_000, "{:?}", v);
        assert!(square <= 1_000_000_000_000 + 935, "{:?}", v);
    }
}
