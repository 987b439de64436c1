//! The numbers, held against the machine's own.

use miyagi::float::Binary32;

fn number(value: f32) -> Binary32 {
    Binary32 { bits: value.to_bits() }
}

fn samples() -> Vec<f32> {
    let mut out = vec![
        0.0,
        -0.0,
        1.0,
        -1.0,
        1.5,
        1e-5,
        1.00001,
        1.000011,
        0.99999,
        2.0,
        1e-45,
        -1e-45,
        f32::MIN_POSITIVE,
        1e30,
        -1e30,
        f32::MAX,
        f32::MIN,
        f32::INFINITY,
        f32::NEG_INFINITY,
        f32::NAN,
        -f32::NAN,
        16777216.0,
        16777217.0,
        0.1,
        0.10001,
        0.100011,
    ];
    let mut bits: u32 = 0x1234_5678;
    for _ in 0..150 {
        bits = bits.wrapping_mul(1664525).wrapping_add(1013904223);
        out.push(f32::from_bits(bits));
    }
    // Neighbours of the tolerance.
    let mut near: u32 = 1e-5f32.to_bits() - 20;
    for _ in 0..40 {
        out.push(f32::from_bits(near));
        near += 1;
    }
    out
}

#[test]
fn comparisons_agree_with_the_machine() {
    for a in samples() {
        assert_eq!(number(a).is_finite(), a.is_finite());
        assert_eq!(number(a).is_nan(), a.is_nan());
        for b in samples() {
            assert_eq!(number(a).is_greater_than(number(b)), a > b, "{a} > {b}");
            assert_eq!(number(a).equals(number(b)), a == b, "{a} == {b}");
            assert_eq!(
                number(a).ranks_before(number(b)),
                a.total_cmp(&b).is_lt(),
                "{a} before {b}"
            );
        }
    }
}

#[test]
fn distance_agrees_with_the_machine() {
    for a in samples() {
        for b in samples() {
            assert_eq!(
                number(a).is_apart_from(number(b)),
                (a - b).abs() > 1e-5,
                "{a:?} and {b:?}"
            );
            assert_eq!(
                number(a).is_apart_from(number(b)),
                number(b).is_apart_from(number(a))
            );
        }
        // Numbers close to each other.
        for step in [0.5e-5f32, 0.9e-5, 1e-5, 1.1e-5, 2e-5] {
            let b = a + step;
            assert_eq!(
                number(a).is_apart_from(number(b)),
                (a - b).abs() > 1e-5,
                "{a:?} and {b:?}"
            );
        }
    }
}

#[test]
fn constants_are_what_they_say() {
    assert_eq!(Binary32::zero(), number(0.0));
    assert!(f32::from_bits(Binary32::quiet_nan().bits).is_nan());
}
