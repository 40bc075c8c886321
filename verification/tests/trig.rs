use spirals::fixed::ONE;
use spirals::trig::{
    atan, cos, reduce_angle, sin, ATAN_SPLIT, EIGHTH_TURN, FULL_TURN, HALF_TURN, QUARTER_TURN,
};

const ANGLES: [i64; 13] = [
    0,
    523_599,
    1_000_000,
    1_570_796,
    2_000_000,
    3_141_593,
    4_000_000,
    5_000_000,
    6_283_185,
    -1_000_000,
    25_132_741,
    1_000_000_000,
    -1_000_000_000,
];

#[test]
fn the_turns_are_multiples_of_pi() {
    assert_eq!(QUARTER_TURN, 1_570_796);
    assert_eq!(HALF_TURN, 3_141_593);
    assert_eq!(FULL_TURN, 6_283_185);
    assert_eq!(EIGHTH_TURN, 785_398);
    assert_eq!(ATAN_SPLIT, 414_214);
}

#[test]
fn atan_meets_itself_at_the_split_and_at_one() {
    assert_eq!(atan(414_212), 392_698);
    assert_eq!(atan(ATAN_SPLIT), 392_699);
    assert_eq!(atan(ATAN_SPLIT + 1), 392_700);
    assert_eq!(atan(999_999), 785_398);
    assert_eq!(atan(1_000_000), EIGHTH_TURN);
    assert_eq!(atan(1_000_001), 785_398);
}

#[test]
fn atan_reaches_one_radian_at_the_tangent_of_one() {
    assert_eq!(atan(1_557_406), 999_999);
    assert_eq!(atan(1_557_407), 1_000_000);
}

#[test]
fn atan_never_falls() {
    let mut last = atan(-3_000_000);
    let mut t: i64 = -3_000_000;
    while t <= 3_000_000 {
        let a = atan(t);
        assert!(a >= last, "atan falls at {}", t);
        last = a;
        t += 1;
    }
    let mut last = atan(3_000_000);
    let mut t: i64 = 3_000_000;
    while t < 2_000_000_000_000 {
        let a = atan(t);
        assert!(a >= last, "atan falls at {}", t);
        last = a;
        t += t / 1_000 + 1;
    }
}

#[test]
fn sin_exact_values() {
    let expected: [i64; 13] = [
        0, 500_000, 841_471, 1_000_000, 909_298, 0, -756_802, -958_924, 0, -841_471, 1, 826_907,
        -826_907,
    ];
    for (angle, value) in ANGLES.iter().zip(expected.iter()) {
        assert_eq!(sin(*angle), *value, "sin({})", angle);
    }
}

#[test]
fn cos_exact_values() {
    let expected: [i64; 13] = [
        1_000_000, 866_025, 540_302, 0, -416_147, -1_000_000, -653_644, 283_662, 1_000_000,
        540_302, 1_000_000, 562_339, 562_339,
    ];
    for (angle, value) in ANGLES.iter().zip(expected.iter()) {
        assert_eq!(cos(*angle), *value, "cos({})", angle);
    }
}

#[test]
fn atan_exact_values() {
    let cases: [(i64, i64); 13] = [
        (0, 0),
        (1, 1),
        (500_000, 463_648),
        (1_000_000, 785_398),
        (1_000_001, 785_398),
        (2_000_000, 1_107_148),
        (10_000_000, 1_471_127),
        (-1_000_000, -785_398),
        (-3_000_000, -1_249_046),
        (1_000_000_000_000, 1_570_795),
        (1_000_000_000_001, 1_570_796),
        (i64::MAX, 1_570_796),
        (i64::MIN, -1_570_796),
    ];
    for (t, value) in cases {
        assert_eq!(atan(t), value, "atan({})", t);
    }
}

#[test]
fn reduce_angle_lands_in_one_turn() {
    assert_eq!(reduce_angle(0), 0);
    assert_eq!(reduce_angle(FULL_TURN), 0);
    assert_eq!(reduce_angle(FULL_TURN - 1), FULL_TURN - 1);
    assert_eq!(reduce_angle(-1), FULL_TURN - 1);
    assert_eq!(reduce_angle(-FULL_TURN), 0);
    assert_eq!(reduce_angle(25_132_741), 1);
    assert_eq!(reduce_angle(i64::MAX), 3_764_512);
    assert_eq!(reduce_angle(i64::MIN), 2_518_672);
}

#[test]
fn sin_and_cos_follow_the_real_functions() {
    let mut angle: i64 = -40_000_000;
    while angle <= 40_000_000 {
        let x = angle as f64 / 1e6;
        let s = sin(angle) as f64 / 1e6;
        let c = cos(angle) as f64 / 1e6;
        assert!((s - x.sin()).abs() < 4e-6, "sin({}) = {}", angle, s);
        assert!((c - x.cos()).abs() < 4e-6, "cos({}) = {}", angle, c);
        angle += 7_919;
    }
}

#[test]
fn sin_and_cos_are_accurate_to_a_millionth_in_the_first_quadrant() {
    let mut angle: i64 = 0;
    while angle <= QUARTER_TURN {
        let x = angle as f64 / 1e6;
        assert!((sin(angle) as f64 - x.sin() * 1e6).abs() < 1.0, "sin({})", angle);
        assert!((cos(angle) as f64 - x.cos() * 1e6).abs() < 1.0, "cos({})", angle);
        angle += 997;
    }
}

#[test]
fn atan_follows_the_real_function() {
    let mut t: i64 = -60_000_000;
    while t <= 60_000_000 {
        let x = t as f64 / 1e6;
        assert!((atan(t) as f64 - x.atan() * 1e6).abs() < 2.0, "atan({})", t);
        t += 10_007;
    }
    let mut t: i64 = -2_000_000;
    while t <= 2_000_000 {
        let x = t as f64 / 1e6;
        assert!((atan(t) as f64 - x.atan() * 1e6).abs() < 2.0, "atan({})", t);
        t += 331;
    }
}

#[test]
fn sin_and_cos_stay_within_one() {
    let mut angle: i64 = -7_000_000;
    while angle <= 7_000_000 {
        assert!(sin(angle).abs() <= ONE);
        assert!(cos(angle).abs() <= ONE);
        angle += 1_009;
    }
}

#[test]
fn a_full_turn_changes_nothing() {
    for angle in [-9_000_000i64, -1, 0, 1, 777_777, 3_141_593, 20_000_000] {
        assert_eq!(sin(angle + FULL_TURN), sin(angle));
        assert_eq!(cos(angle + FULL_TURN), cos(angle));
    }
}

#[test]
fn atan_is_odd_and_bounded() {
    for t in [0i64, 1, 999_999, 1_000_000, 1_000_001, 123_456_789, i64::MAX] {
        assert_eq!(atan(-t), -atan(t));
        assert!(atan(t) <= QUARTER_TURN);
        assert!(atan(t) >= 0);
    }
}
