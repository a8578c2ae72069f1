use fps_client::game::{clamp_pitch, MAX_PITCH_BITS, MIN_PITCH_BITS};
use fps_client::ray::{MAX_SHOT_HIT_TIME_BITS, MIN_SHOT_HIT_TIME_BITS};
use fps_client::scalar::{Point3, Position, Scalar, POSITIVE_INFINITY_BITS, SIGN_BIT};

fn s(value: f32) -> Scalar {
    Scalar::from_bits(value.to_bits())
}

fn samples() -> Vec<f32> {
    let mut values = vec![
        0.0,
        -0.0,
        1.0,
        -1.0,
        0.5,
        -0.5,
        0.05,
        0.35,
        -0.35,
        0.000001,
        -0.000001,
        1.0e-40,
        -1.0e-40,
        100000.0,
        123456.79,
        -98765.43,
        f32::MIN_POSITIVE,
        f32::MAX,
        f32::MIN,
        f32::EPSILON,
        f32::INFINITY,
        f32::NEG_INFINITY,
        f32::NAN,
        -f32::NAN,
        f32::from_bits(0x7fff_ffff),
        f32::from_bits(1),
        f32::from_bits(0x8000_0001),
    ];
    let mut x = 0.37_f32;
    for _ in 0..40 {
        x = (x * 7.31 + 0.11) % 13.0;
        values.push(x);
        values.push(-x * 1.0e3);
        values.push(x * 1.0e-6);
    }
    values
}

#[test]
fn the_constants_are_the_patterns_of_their_numbers() {
    assert_eq!(MIN_SHOT_HIT_TIME_BITS, 0.000001_f32.to_bits());
    assert_eq!(MAX_SHOT_HIT_TIME_BITS, 100000.0_f32.to_bits());
    assert_eq!(MAX_PITCH_BITS, 0.35_f32.to_bits());
    assert_eq!(MIN_PITCH_BITS, (-0.35_f32).to_bits());
    assert_eq!(POSITIVE_INFINITY_BITS, f32::INFINITY.to_bits());
    assert_eq!(SIGN_BIT, (-0.0_f32).to_bits());
    assert_eq!(Scalar::zero().bits, 0.0_f32.to_bits());
}

#[test]
fn less_than_is_the_order_of_singles() {
    for a in samples() {
        for b in samples() {
            assert_eq!(s(a).lt(&s(b)), a < b, "{} < {}", a, b);
        }
    }
}

#[test]
fn abs_lt_is_the_order_of_magnitudes() {
    for a in samples() {
        for b in samples() {
            assert_eq!(s(a).abs_lt(&s(b)), a.abs() < b, "|{}| < {}", a, b);
        }
    }
}

#[test]
fn positive_is_above_zero() {
    for a in samples() {
        assert_eq!(s(a).is_positive(), a > 0.0, "{}", a);
        assert_eq!(s(a).is_nan(), a.is_nan(), "{}", a);
    }
}

#[test]
fn pitch_stays_within_its_limits() {
    for a in samples() {
        let expected = if a > 0.35 {
            0.35
        } else if a < -0.35 {
            -0.35
        } else {
            a
        };
        assert_eq!(clamp_pitch(s(a)).bits, expected.to_bits(), "{}", a);
    }
    assert_eq!(clamp_pitch(s(0.2)), s(0.2));
    assert_eq!(clamp_pitch(s(0.36)), s(0.35));
    assert_eq!(clamp_pitch(s(-7.0)), s(-0.35));
}

#[test]
fn positions_are_built_from_their_coordinates() {
    assert_eq!(Position::new(), Position { x: s(0.0), z: s(0.0) });
    assert_eq!(Position::build(s(2.5), s(-1.0)), Position { x: s(2.5), z: s(-1.0) });
    let p = Point3 { x: s(1.0), y: s(2.0), z: s(3.0) };
    assert_eq!(f32::from_bits(p.y.bits), 2.0);
}

#[test]
fn a_whole_number_becomes_its_single() {
    for n in 0..70000_usize {
        assert_eq!(Scalar::from_whole(n).bits, (n as f32).to_bits(), "{}", n);
    }
    assert_eq!(Scalar::from_whole(0), s(0.0));
    assert_eq!(Scalar::from_whole(1), s(1.0));
    assert_eq!(Scalar::from_whole(3), s(3.0));
    assert_eq!(Scalar::from_whole(16_777_215), s(16_777_215.0));
    assert_eq!(Scalar::from_whole(16_777_216), s(16_777_216.0));
}

#[test]
fn a_long_whole_number_becomes_the_nearest_single() {
    let mut samples: Vec<usize> = vec![
        16_777_217,
        16_777_218,
        16_777_219,
        33_554_431,
        33_554_432,
        33_554_433,
        33_554_434,
        33_554_435,
        4_294_967_295,
        usize::MAX,
        usize::MAX - 1,
        usize::MAX / 2,
        usize::MAX / 2 + 1,
        usize::MAX / 3,
    ];
    for shift in 24..usize::BITS {
        let top = 1_usize << shift;
        let half = 1_usize << (shift - 24);
        for base in [top, top + (top >> 1), top + (top >> 2) + (top >> 23)] {
            for delta in [0, 1, half - 1, half, half + 1, 2 * half - 1, 2 * half, 3 * half] {
                samples.push(base.wrapping_add(delta));
                samples.push(base.wrapping_sub(delta));
            }
        }
    }
    let mut x: usize = 0x9e37_79b9_7f4a_7c15_u64 as usize;
    for _ in 0..20000 {
        x ^= x << 13;
        x ^= x >> 7;
        x ^= x << 17;
        samples.push(x);
        samples.push(x >> (x % 40));
    }
    for n in samples {
        assert_eq!(Scalar::from_whole(n).bits, (n as f32).to_bits(), "{}", n);
    }
}
