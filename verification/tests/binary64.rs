use raydium_amm_bot::binary64::Binary64;

fn wrap(x: f64) -> Binary64 {
    Binary64 { bits: x.to_bits() }
}

fn same(x: Binary64, y: f64) -> bool {
    if y.is_nan() {
        x.is_nan()
    } else {
        x.bits == y.to_bits()
    }
}

fn next(seed: &mut u64) -> u64 {
    *seed = seed.wrapping_mul(6364136223846793005).wrapping_add(1442695040888963407);
    let x = *seed;
    (x ^ (x >> 29)).wrapping_mul(0xbf58476d1ce4e5b9) ^ (x >> 17)
}

fn specials() -> Vec<f64> {
    vec![
        0.0,
        -0.0,
        1.0,
        -1.0,
        0.1,
        3.0,
        -2.5,
        100.0,
        1e9,
        0.997,
        f64::MIN_POSITIVE,
        f64::from_bits(1),
        f64::from_bits(0x000f_ffff_ffff_ffff),
        f64::MAX,
        -f64::MAX,
        f64::INFINITY,
        f64::NEG_INFINITY,
        f64::NAN,
        9007199254740993.0,
        18446744073709551615.0,
        1.8e19,
        9.3e18,
        -9.3e18,
        1.0000000000000002,
    ]
}

fn check_pair(a: f64, b: f64) {
    let (x, y) = (wrap(a), wrap(b));
    assert!(same(x.plus(y), a + b), "{} + {}", a, b);
    assert!(same(x.minus(y), a - b), "{} - {}", a, b);
    assert!(same(x.times(y), a * b), "{} * {}", a, b);
    assert!(same(x.over(y), a / b), "{} / {}", a, b);
    assert_eq!(x.less(y), a < b);
    assert_eq!(x.at_most(y), a <= b);
}

#[test]
fn arithmetic_on_special_values() {
    for a in specials() {
        for b in specials() {
            check_pair(a, b);
        }
    }
}

#[test]
fn arithmetic_on_any_bits() {
    let mut seed: u64 = 17;
    for _ in 0..300 {
        let a = f64::from_bits(next(&mut seed));
        let b = f64::from_bits(next(&mut seed));
        check_pair(a, b);
    }
}

#[test]
fn arithmetic_on_near_values() {
    let mut seed: u64 = 23;
    for _ in 0..300 {
        let bits = next(&mut seed);
        let a = f64::from_bits(bits);
        let b = f64::from_bits(bits ^ (next(&mut seed) >> 9));
        check_pair(a, b);
        check_pair(a, -b);
    }
}

#[test]
fn arithmetic_on_prices() {
    let mut seed: u64 = 5;
    for _ in 0..300 {
        let a = (next(&mut seed) % 1_000_000_000_000) as f64 / 1e9;
        let b = (next(&mut seed) % 1_000_000_000_000_000) as f64 / 1e6;
        check_pair(a, b);
    }
}

#[test]
fn conversions_to_integers() {
    for a in specials() {
        assert_eq!(wrap(a).to_u64(), a as u64);
        assert_eq!(wrap(a).to_i64(), a as i64);
        assert_eq!(wrap(a).positive(), a > 0.0);
        assert_eq!(wrap(a).is_nan(), a.is_nan());
        assert!(same(wrap(a).negate(), -a));
    }
    let mut seed: u64 = 99;
    for _ in 0..500 {
        let n = next(&mut seed) >> (next(&mut seed) % 64);
        let a = n as f64 * 0.37;
        assert_eq!(wrap(a).to_u64(), a as u64);
        assert_eq!(wrap(-a).to_i64(), (-a) as i64);
    }
    assert_eq!(wrap(0.999).to_u64(), 0);
    assert_eq!(wrap(18446744073709549568.0).to_u64(), 18446744073709549568);
    assert_eq!(wrap(-9223372036854775808.0).to_i64(), i64::MIN);
}

#[test]
fn conversions_from_integers() {
    let mut seed: u64 = 3;
    for _ in 0..200 {
        let n = next(&mut seed) >> (next(&mut seed) % 64);
        assert!(same(Binary64::from_u64(n), n as f64));
        let wide = (n as i128) * (next(&mut seed) as i128);
        assert!(same(Binary64::from_i128(wide), wide as f64));
        assert!(same(Binary64::from_i128(-wide), -wide as f64));
    }
    assert!(same(Binary64::from_i128(i128::MIN), i128::MIN as f64));
    assert!(same(Binary64::from_i128(0), 0.0));
    assert!(same(Binary64::from_u64(u64::MAX), u64::MAX as f64));
    assert!(same(Binary64::from_ratio(997, 1000), 0.997));
    assert!(same(Binary64::from_ratio(1, 3), 1.0 / 3.0));
}

#[test]
fn constants() {
    assert!(same(Binary64::zero(false), 0.0));
    assert!(same(Binary64::zero(true), -0.0));
    assert!(same(Binary64::infinite(false), f64::INFINITY));
    assert!(same(Binary64::infinite(true), f64::NEG_INFINITY));
    assert!(Binary64::nan().is_nan());
}

#[test]
fn sums_keep_the_order() {
    let mut seed: u64 = 71;
    for _ in 0..100 {
        let a = f64::from_bits(next(&mut seed) >> 2);
        let b = a * 1.5;
        let c = f64::from_bits(next(&mut seed) >> 2);
        assert!(wrap(a).plus(wrap(c)).at_most(wrap(b).plus(wrap(c))));
        assert!(wrap(a).times(wrap(3.0)).at_most(wrap(b).times(wrap(3.0))));
        assert!(wrap(a).over(wrap(7.0)).at_most(wrap(b).over(wrap(7.0))));
        assert!(wrap(b).negate().at_most(wrap(a).negate()));
        assert!(wrap(a).to_u64() <= wrap(b).to_u64());
    }
}

#[test]
fn rounding_takes_the_nearest_even() {
    // Halfway cases between neighbours of 53 bits.
    assert_eq!(Binary64::from_u64(9007199254740993).to_u64(), 9007199254740992);
    assert_eq!(Binary64::from_u64(9007199254740995).to_u64(), 9007199254740996);
    assert_eq!(Binary64::from_u64(9007199254740991).to_u64(), 9007199254740991);
}
