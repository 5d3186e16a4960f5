use herosynth::scalar::{Scalar, Side};

fn sc(x: f64) -> Scalar {
    Scalar::from_bits(x.to_bits())
}

fn samples() -> Vec<f64> {
    let mut v = vec![
        0.0,
        -0.0,
        1.0,
        -1.0,
        0.5,
        -0.5,
        0.1,
        0.7,
        0.9999999999999999,
        1.0000000000000002,
        -0.9999999999999999,
        -1.0000000000000002,
        7.999999999999999,
        8.0,
        8.000000000000002,
        12.0,
        -12.0,
        12.5,
        99.99999999999999,
        100.0,
        100.00000000000001,
        -100.0,
        -100.00000000000001,
        127.0,
        127.9,
        128.0,
        21999.999999999996,
        22000.0,
        22000.000000000004,
        4294967295.0,
        4294967296.0,
        9007199254740991.0,
        9007199254740992.0,
        9007199254740994.0,
        9223372036854775808.0,
        18446744073709549568.0,
        18446744073709551616.0,
        36893488147419103232.0,
        1e300,
        -1e300,
        f64::MAX,
        f64::MIN,
        f64::MIN_POSITIVE,
        -f64::MIN_POSITIVE,
        5e-324,
        -5e-324,
        2.2250738585072009e-308,
        f64::INFINITY,
        f64::NEG_INFINITY,
        f64::NAN,
        -f64::NAN,
        f64::EPSILON,
        std::f64::consts::PI,
    ];
    let mut state: u64 = 0x9E37_79B9_7F4A_7C15;
    for _ in 0..20000 {
        state = state.wrapping_mul(6364136223846793005).wrapping_add(1442695040888963407);
        v.push(f64::from_bits(state));
        let small = ((state >> 11) as f64) / ((1u64 << 53) as f64) * 300.0 - 150.0;
        v.push(small);
        v.push(small.trunc());
    }
    v
}

#[test]
fn scalar_keeps_its_bits() {
    assert_eq!(Scalar::from_bits(0x3FF0_0000_0000_0000).to_bits(), 0x3FF0_0000_0000_0000);
    assert_eq!(sc(1.0).to_bits(), 0x3FF0_0000_0000_0000);
    assert_eq!(Scalar::zero().to_bits(), 0);
    assert_eq!(sc(-0.0).to_bits(), 0x8000_0000_0000_0000);
}

#[test]
fn scalar_is_nan_agrees_with_the_number() {
    for x in samples() {
        assert_eq!(sc(x).is_nan(), x.is_nan(), "{:?}", x);
    }
    assert!(Scalar::from_bits(0x7FF0_0000_0000_0001).is_nan());
    assert!(Scalar::from_bits(0xFFFF_FFFF_FFFF_FFFF).is_nan());
    assert!(!Scalar::from_bits(0x7FF0_0000_0000_0000).is_nan());
    assert!(!Scalar::from_bits(0x7FEF_FFFF_FFFF_FFFF).is_nan());
}

#[test]
fn scalar_in_range_agrees_with_the_number() {
    let ranges: [(i32, i32); 12] = [
        (0, 1),
        (-1, 1),
        (-100, 100),
        (0, 22000),
        (-8, 8),
        (-12, 12),
        (0, 0),
        (1, 1),
        (-5, -2),
        (3, 7),
        (5, 2),
        (i32::MIN, i32::MAX),
    ];
    for x in samples() {
        for (lo, hi) in ranges.iter() {
            let expected = (*lo as f64) <= x && x <= (*hi as f64);
            assert_eq!(sc(x).in_range(*lo, *hi), expected, "{:?} in [{}, {}]", x, lo, hi);
        }
    }
}

#[test]
fn scalar_in_range_at_the_ends() {
    assert!(sc(100.0).in_range(-100, 100));
    assert!(sc(-100.0).in_range(-100, 100));
    assert!(!sc(100.00000000000001).in_range(-100, 100));
    assert!(!sc(-100.00000000000001).in_range(-100, 100));
    assert!(sc(-0.0).in_range(0, 1));
    assert!(!sc(-5e-324).in_range(0, 1));
    assert!(sc(5e-324).in_range(0, 1));
    assert!(!sc(f64::NAN).in_range(i32::MIN, i32::MAX));
    assert!(!sc(f64::INFINITY).in_range(i32::MIN, i32::MAX));
    assert!(!sc(f64::NEG_INFINITY).in_range(i32::MIN, i32::MAX));
    assert!(sc(-2147483648.0).in_range(i32::MIN, 0));
    assert!(!sc(-2147483648.0000005).in_range(i32::MIN, 0));
    assert!(sc(2147483647.0).in_range(0, i32::MAX));
    assert!(!sc(2147483647.0000002).in_range(0, i32::MAX));
}

#[test]
fn scalar_is_positive_agrees_with_the_number() {
    for x in samples() {
        assert_eq!(sc(x).is_positive(), x > 0.0, "{:?}", x);
    }
    assert!(!sc(0.0).is_positive());
    assert!(!sc(-0.0).is_positive());
    assert!(sc(5e-324).is_positive());
    assert!(sc(f64::INFINITY).is_positive());
    assert!(!sc(f64::NAN).is_positive());
}

#[test]
fn scalar_truncate_agrees_with_the_number() {
    for x in samples() {
        let expected = if x.is_nan() || x <= -1.0 || x >= 18446744073709551616.0 {
            None
        } else {
            Some(x as u64)
        };
        assert_eq!(sc(x).truncate(), expected, "{:?}", x);
    }
}

#[test]
fn scalar_truncate_examples() {
    assert_eq!(sc(0.0).truncate(), Some(0));
    assert_eq!(sc(0.99).truncate(), Some(0));
    assert_eq!(sc(1.0).truncate(), Some(1));
    assert_eq!(sc(127.9).truncate(), Some(127));
    assert_eq!(sc(128.0).truncate(), Some(128));
    assert_eq!(sc(-0.5).truncate(), Some(0));
    assert_eq!(sc(-1.0).truncate(), None);
    assert_eq!(sc(f64::NAN).truncate(), None);
    assert_eq!(sc(f64::INFINITY).truncate(), None);
    assert_eq!(sc(9007199254740993.0).truncate(), Some(9007199254740992));
    assert_eq!(sc(18446744073709549568.0).truncate(), Some(18446744073709549568));
    assert_eq!(sc(18446744073709551616.0).truncate(), None);
}

#[test]
fn scalar_from_int_is_the_number() {
    let mut ns: Vec<i32> = vec![
        0,
        1,
        -1,
        2,
        3,
        4,
        7,
        8,
        100,
        -100,
        440,
        22000,
        65535,
        65536,
        i32::MAX,
        i32::MIN,
        i32::MIN + 1,
        i32::MAX - 1,
        0x4000_0000,
        0x3FFF_FFFF,
    ];
    let mut state: u64 = 12345;
    for _ in 0..20000 {
        state = state.wrapping_mul(6364136223846793005).wrapping_add(1442695040888963407);
        ns.push((state >> 32) as i32);
        ns.push(((state >> 40) as i32) % 1000);
    }
    for n in ns {
        assert_eq!(Scalar::from_int(n).to_bits(), (n as f64).to_bits(), "{}", n);
    }
}

#[test]
fn scalar_magnitude_side_examples() {
    assert_eq!(sc(0.5).magnitude_side(1), Side::Below);
    assert_eq!(sc(-0.5).magnitude_side(1), Side::Below);
    assert_eq!(sc(1.0).magnitude_side(1), Side::Level);
    assert_eq!(sc(-1.0).magnitude_side(1), Side::Level);
    assert_eq!(sc(1.5).magnitude_side(1), Side::Above);
    assert_eq!(sc(0.0).magnitude_side(0), Side::Level);
    assert_eq!(sc(-0.0).magnitude_side(0), Side::Level);
    assert_eq!(sc(5e-324).magnitude_side(0), Side::Above);
    assert_eq!(sc(5e-324).magnitude_side(1), Side::Below);
    assert_eq!(sc(4294967295.0).magnitude_side(u32::MAX), Side::Level);
    assert_eq!(sc(4294967294.5).magnitude_side(u32::MAX), Side::Below);
    assert_eq!(sc(4294967295.5).magnitude_side(u32::MAX), Side::Above);
    assert_eq!(sc(f64::INFINITY).magnitude_side(u32::MAX), Side::Above);
    assert_eq!(sc(1e300).magnitude_side(7), Side::Above);
}
