use expr_eval::float::{
    float_is_finite, float_is_nan, float_is_zero, float_less, float_less_equal, float_magnitude,
    float_negate, float_of_bool, float_of_int, float_to_int, float_within_epsilon, EPSILON_BITS,
    INFINITY_BITS, ONE_BITS, SIGN_BIT,
};

fn sample_integers() -> Vec<i64> {
    let mut v = vec![
        0,
        1,
        -1,
        2,
        -2,
        3,
        10,
        255,
        -256,
        i64::MAX,
        i64::MIN,
        i64::MAX - 1,
        i64::MIN + 1,
        1 << 52,
        (1 << 52) + 1,
        1 << 53,
        (1 << 53) + 1,
        (1 << 53) + 2,
        (1 << 53) + 3,
        (1 << 54) + 2,
        (1 << 54) + 6,
        -((1 << 53) + 1),
        -((1 << 53) + 3),
        (1 << 62) + (1 << 9),
        (1 << 62) + (1 << 9) + 1,
        (1 << 62) + (3 << 9),
        i64::MAX - 511,
        i64::MAX - 512,
        i64::MAX - 513,
        0x7FFF_FFFF_FFFF_FBFF,
        0x7FFF_FFFF_FFFF_FC00,
    ];
    let mut x: u64 = 0x9E37_79B9_7F4A_7C15;
    for i in 0..4000 {
        x ^= x << 13;
        x ^= x >> 7;
        x ^= x << 17;
        let shift = (i % 64) as u32;
        v.push((x >> shift) as i64);
        v.push(-((x >> shift) as i64 >> 1));
    }
    v
}

fn sample_floats() -> Vec<f64> {
    let mut v = vec![
        0.0,
        -0.0,
        0.5,
        -0.5,
        0.999_999_999,
        1.0,
        -1.0,
        1.5,
        -1.5,
        2.5,
        1e18,
        -1e18,
        9.3e18,
        -9.3e18,
        9223372036854775807.0,
        -9223372036854775808.0,
        9223372036854774784.0,
        -9223372036854777856.0,
        4503599627370496.0,
        4503599627370497.0,
        9007199254740993.0,
        1e300,
        -1e300,
        5e-324,
        2.2250738585072014e-308,
        f64::INFINITY,
        f64::NEG_INFINITY,
        f64::NAN,
        -f64::NAN,
        f64::EPSILON,
        f64::MAX,
        f64::MIN,
    ];
    let mut x: u64 = 0x2545_F491_4F6C_DD1D;
    for _ in 0..4000 {
        x ^= x << 13;
        x ^= x >> 7;
        x ^= x << 17;
        v.push(f64::from_bits(x));
        // exponents near the integer range
        let e = 1023 + (x % 70);
        v.push(f64::from_bits((x & 0x800F_FFFF_FFFF_FFFF) | (e << 52)));
    }
    v
}

#[test]
fn integer_to_float_rounds_to_nearest_even() {
    for i in sample_integers() {
        assert_eq!(float_of_int(i), (i as f64).to_bits(), "for {}", i);
    }
}

#[test]
fn integer_to_float_exact_values() {
    assert_eq!(float_of_int(0), 0);
    assert_eq!(float_of_int(1), ONE_BITS);
    assert_eq!(float_of_int(-1), ONE_BITS | SIGN_BIT);
    assert_eq!(float_of_int(2), 0x4000_0000_0000_0000);
    assert_eq!(float_of_int(3), 0x4008_0000_0000_0000);
    // 2^53 + 1 lies halfway between two floats and goes to the even one, 2^53
    assert_eq!(float_of_int((1 << 53) + 1), 0x4340_0000_0000_0000);
    // 2^53 + 3 lies halfway too and goes up to 2^53 + 4
    assert_eq!(float_of_int((1 << 53) + 3), 0x4340_0000_0000_0002);
    assert_eq!(float_of_int(i64::MAX), 0x43E0_0000_0000_0000);
    assert_eq!(float_of_int(i64::MIN), 0xC3E0_0000_0000_0000);
}

#[test]
fn float_to_integer_truncates_and_saturates() {
    for f in sample_floats() {
        assert_eq!(float_to_int(f.to_bits()), f as i64, "for {:?}", f);
    }
}

#[test]
fn float_to_integer_exact_values() {
    assert_eq!(float_to_int(1.9f64.to_bits()), 1);
    assert_eq!(float_to_int((-1.9f64).to_bits()), -1);
    assert_eq!(float_to_int(0.99f64.to_bits()), 0);
    assert_eq!(float_to_int(f64::NAN.to_bits()), 0);
    assert_eq!(float_to_int(f64::INFINITY.to_bits()), i64::MAX);
    assert_eq!(float_to_int(f64::NEG_INFINITY.to_bits()), i64::MIN);
    assert_eq!(float_to_int(1e19f64.to_bits()), i64::MAX);
    assert_eq!(float_to_int((-1e19f64).to_bits()), i64::MIN);
    assert_eq!(float_to_int(4611686018427387904.0f64.to_bits()), 1 << 62);
}

#[test]
fn float_comparison_is_the_ieee_comparison() {
    let floats = sample_floats();
    let some: Vec<f64> = floats.iter().copied().take(60).collect();
    for &a in &some {
        for &b in &some {
            assert_eq!(float_less(a.to_bits(), b.to_bits()), a < b, "{:?} < {:?}", a, b);
            assert_eq!(float_less_equal(a.to_bits(), b.to_bits()), a <= b, "{:?} <= {:?}", a, b);
        }
    }
    for w in floats.windows(2) {
        let (a, b) = (w[0], w[1]);
        assert_eq!(float_less(a.to_bits(), b.to_bits()), a < b, "{:?} < {:?}", a, b);
        assert_eq!(float_less_equal(a.to_bits(), b.to_bits()), a <= b, "{:?} <= {:?}", a, b);
    }
}

#[test]
fn zeros_compare_equal() {
    let pz = 0.0f64.to_bits();
    let nz = (-0.0f64).to_bits();
    assert!(!float_less(nz, pz));
    assert!(!float_less(pz, nz));
    assert!(float_less_equal(nz, pz));
    assert!(float_less_equal(pz, nz));
}

#[test]
fn nan_compares_false() {
    let nan = f64::NAN.to_bits();
    let one = ONE_BITS;
    assert!(!float_less(nan, one));
    assert!(!float_less(one, nan));
    assert!(!float_less_equal(nan, nan));
}

#[test]
fn float_classification() {
    for f in sample_floats() {
        let bits = f.to_bits();
        assert_eq!(float_is_nan(bits), f.is_nan(), "{:?}", f);
        assert_eq!(float_is_finite(bits), f.is_finite(), "{:?}", f);
        assert_eq!(float_is_zero(bits), f == 0.0, "{:?}", f);
        assert_eq!(float_magnitude(bits), f.abs().to_bits(), "{:?}", f);
        assert_eq!(float_negate(bits), (-f).to_bits(), "{:?}", f);
        assert_eq!(float_within_epsilon(bits), f.abs() < f64::EPSILON, "{:?}", f);
    }
}

#[test]
fn float_constants() {
    assert_eq!(ONE_BITS, 1.0f64.to_bits());
    assert_eq!(EPSILON_BITS, f64::EPSILON.to_bits());
    assert_eq!(INFINITY_BITS, f64::INFINITY.to_bits());
    assert_eq!(SIGN_BIT, (-0.0f64).to_bits());
    assert_eq!(float_of_bool(true), 1.0f64.to_bits());
    assert_eq!(float_of_bool(false), 0.0f64.to_bits());
}

#[test]
fn epsilon_itself_is_not_within_epsilon() {
    assert!(!float_within_epsilon(EPSILON_BITS));
    assert!(float_within_epsilon(EPSILON_BITS - 1));
    assert!(float_within_epsilon(0));
    assert!(float_within_epsilon((-1e-17f64).to_bits()));
    assert!(!float_within_epsilon(f64::NAN.to_bits()));
}
