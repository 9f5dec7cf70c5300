use mempool_fee_monitor::binary64::Binary64;
use mempool_fee_monitor::binary64::HIDDEN_BIT;
use mempool_fee_monitor::binary64::INFINITY_BITS;
use mempool_fee_monitor::binary64::SIGN_BIT;

fn b(x: f64) -> Binary64 {
    Binary64::from_bits(x.to_bits())
}

fn samples() -> Vec<f64> {
    vec![
        0.0,
        -0.0,
        1.0,
        -1.0,
        5.0,
        6.0,
        4.0,
        560.0,
        559.999,
        0.1,
        -0.1,
        1.5e-320,
        -1.5e-320,
        f64::MIN_POSITIVE,
        -f64::MIN_POSITIVE,
        f64::from_bits(1),
        f64::from_bits(SIGN_BIT | 1),
        f64::MAX,
        f64::MIN,
        f64::INFINITY,
        f64::NEG_INFINITY,
        f64::NAN,
        -f64::NAN,
        f64::from_bits(0x7ff0_0000_0000_0001),
        f64::from_bits(0xffff_ffff_ffff_ffff),
        1e8,
        123456789.125,
        -123456789.125,
        2.0f64.powi(52),
        2.0f64.powi(53),
        2.0f64.powi(-1022),
        2.0f64.powi(-1074),
    ]
}

#[test]
fn constants_are_the_fields_of_the_encoding() {
    assert_eq!(SIGN_BIT, (-0.0f64).to_bits());
    assert_eq!(INFINITY_BITS, f64::INFINITY.to_bits());
    assert_eq!(HIDDEN_BIT, 1u64 << 52);
}

#[test]
fn zero_is_positive_zero() {
    assert_eq!(Binary64::zero().to_bits(), 0.0f64.to_bits());
    assert_eq!(Binary64::zero(), Binary64 { bits: 0 });
}

#[test]
fn bits_round_trip() {
    for x in samples() {
        assert_eq!(Binary64::from_bits(x.to_bits()).to_bits(), x.to_bits());
    }
}

#[test]
fn abs_bits_drops_the_sign() {
    for x in samples() {
        assert_eq!(b(x).abs_bits(), x.to_bits() & !SIGN_BIT);
    }
    assert_eq!(b(-1.0).abs_bits(), 1.0f64.to_bits());
}

#[test]
fn lt_is_the_numeric_order() {
    let all = samples();
    for &x in all.iter() {
        for &y in all.iter() {
            assert_eq!(b(x).lt(&b(y)), x < y, "{:e} < {:e}", x, y);
        }
    }
}

#[test]
fn lt_on_fee_rates() {
    assert!(b(5.0).lt(&b(6.0)));
    assert!(!b(5.0).lt(&b(4.0)));
    assert!(!b(5.0).lt(&b(5.0)));
    assert!(b(-2.0).lt(&b(-1.0)));
    assert!(b(-1.0).lt(&b(0.0)));
}

#[test]
fn lt_treats_both_zeros_alike() {
    assert!(!b(0.0).lt(&b(-0.0)));
    assert!(!b(-0.0).lt(&b(0.0)));
    assert!(b(-0.0).lt(&b(1.0)));
    assert!(b(-1.0).lt(&b(-0.0)));
}

#[test]
fn lt_is_false_beside_a_nan() {
    for x in samples() {
        assert!(!b(f64::NAN).lt(&b(x)));
        assert!(!b(x).lt(&b(f64::NAN)));
    }
}

#[test]
fn lt_over_a_sweep_of_patterns() {
    let mut s: u64 = 0x9e37_79b9_7f4a_7c15;
    let mut prev = 0.0f64;
    for _ in 0..200_000 {
        s = s.wrapping_mul(6364136223846793005).wrapping_add(1442695040888963407);
        let x = f64::from_bits(s ^ (s >> 29));
        assert_eq!(b(x).lt(&b(prev)), x < prev);
        assert_eq!(b(prev).lt(&b(x)), prev < x);
        prev = x;
    }
}
