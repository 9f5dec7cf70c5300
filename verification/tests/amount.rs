use mempool_fee_monitor::amount::to_coins;
use mempool_fee_monitor::amount::UNITS_PER_COIN;
use mempool_fee_monitor::binary64::Binary64;

fn coins(x: f64) -> f64 {
    f64::from_bits(to_coins(Binary64::from_bits(x.to_bits())).to_bits())
}

fn same_as_division(x: f64) {
    let got = to_coins(Binary64::from_bits(x.to_bits())).to_bits();
    let want = (x / 100_000_000.0).to_bits();
    assert_eq!(got, want, "{:e} ({:#018x})", x, x.to_bits());
}

#[test]
fn a_coin_has_a_hundred_million_units() {
    assert_eq!(UNITS_PER_COIN, 100_000_000);
}

#[test]
fn whole_coins() {
    assert_eq!(coins(100_000_000.0), 1.0);
    assert_eq!(coins(250_000_000.0), 2.5);
    assert_eq!(coins(2_100_000_000_000_000.0), 21_000_000.0);
    assert_eq!(coins(-100_000_000.0), -1.0);
}

#[test]
fn parts_of_a_coin() {
    assert_eq!(coins(1.0), 1e-8);
    assert_eq!(coins(50_000_000.0), 0.5);
    assert_eq!(coins(12_345_678.0), 0.12345678);
    assert_eq!(coins(0.5), 5e-9);
}

#[test]
fn zero_keeps_its_sign() {
    assert_eq!(coins(0.0).to_bits(), 0.0f64.to_bits());
    assert_eq!(coins(-0.0).to_bits(), (-0.0f64).to_bits());
}

#[test]
fn infinities_and_nans_come_back() {
    assert_eq!(coins(f64::INFINITY), f64::INFINITY);
    assert_eq!(coins(f64::NEG_INFINITY), f64::NEG_INFINITY);
    assert!(coins(f64::NAN).is_nan());
    let odd_nan = Binary64::from_bits(0x7ff0_0000_0000_0001);
    assert_eq!(to_coins(odd_nan), odd_nan);
}

#[test]
fn the_smallest_numbers_round_to_zero_or_up() {
    same_as_division(f64::from_bits(1));
    same_as_division(f64::MIN_POSITIVE);
    same_as_division(-f64::MIN_POSITIVE);
    assert_eq!(coins(f64::from_bits(1)), 0.0);
    assert_eq!(coins(f64::MIN_POSITIVE), f64::MIN_POSITIVE / 1e8);
    // Exactly half of the smallest number: a tie, which goes to the even zero.
    same_as_division(f64::from_bits(50_000_000));
    assert_eq!(coins(f64::from_bits(50_000_000)), 0.0);
    // A little more than half rounds up to the smallest number.
    same_as_division(f64::from_bits(50_000_001));
    assert_eq!(coins(f64::from_bits(50_000_001)).to_bits(), 1);
    // One and a half of it: a tie again, which goes up to the even two.
    same_as_division(f64::from_bits(150_000_000));
    assert_eq!(coins(f64::from_bits(150_000_000)).to_bits(), 2);
}

#[test]
fn the_largest_numbers() {
    same_as_division(f64::MAX);
    same_as_division(f64::MIN);
    assert_eq!(coins(f64::MAX), f64::MAX / 1e8);
}

#[test]
fn results_around_the_smallest_normal_number() {
    let edge = f64::MIN_POSITIVE * 1e8;
    let bits = edge.to_bits();
    for delta in 0..2000u64 {
        same_as_division(f64::from_bits(bits - 1000 + delta));
        same_as_division(-f64::from_bits(bits - 1000 + delta));
    }
}

#[test]
fn every_exponent() {
    let fractions: [u64; 9] = [
        0,
        1,
        0x7_ffff_ffff_ffff,
        0x8_0000_0000_0000,
        0xf_ffff_ffff_ffff,
        0x7_d784_0000_0000,
        0x7_d783_ffff_ffff,
        0x7_d784_0000_0001,
        0x3_1415_9265_3589,
    ];
    for e in 0..2047u64 {
        for f in fractions {
            same_as_division(f64::from_bits((e << 52) | f));
            same_as_division(f64::from_bits((1 << 63) | (e << 52) | f));
        }
    }
}

#[test]
fn whole_numbers_of_units() {
    for n in 0..200_000u64 {
        same_as_division(n as f64);
    }
    let mut n: u64 = 1;
    while n < (1 << 62) {
        same_as_division(n as f64);
        same_as_division((n + 1) as f64);
        same_as_division((n - 1) as f64);
        n *= 3;
    }
}

#[test]
fn a_sweep_of_patterns() {
    let mut s: u64 = 0x2545_f491_4f6c_dd1d;
    for _ in 0..400_000 {
        s = s.wrapping_mul(6364136223846793005).wrapping_add(1442695040888963407);
        let x = f64::from_bits(s ^ (s >> 31));
        if x.is_finite() {
            same_as_division(x);
        }
    }
}

#[test]
fn a_sweep_of_small_exponents() {
    let mut s: u64 = 0x1234_5678_9abc_def1;
    for _ in 0..400_000 {
        s = s.wrapping_mul(6364136223846793005).wrapping_add(1442695040888963407);
        let pattern = (s ^ (s >> 31)) & 0x803f_ffff_ffff_ffff;
        same_as_division(f64::from_bits(pattern));
    }
}
