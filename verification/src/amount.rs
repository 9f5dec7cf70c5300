//! Amounts of fees: from the feed's smallest unit to whole coins.

use vstd::prelude::*;
use vstd::arithmetic::power2::*;
use crate::binary64::Binary64;
use crate::binary64::HIDDEN_BIT;
use crate::binary64::INFINITY_BITS;
use crate::binary64::lemma_assembled_value;
use crate::binary64::lemma_quotient_is_unique;
use crate::binary64::lemma_scaled_magnitude_increases;

verus! {

/// The number of smallest units in one coin.
pub const UNITS_PER_COIN: u64 = 100_000_000;

/// An amount of smallest units, in coins: the amount divided by
/// `UNITS_PER_COIN`, rounded as IEEE 754 rounds a quotient. An infinity or a
/// NaN is its own quotient.
pub open spec fn coins_of(amount: Binary64) -> Binary64 {
    if amount.is_finite() {
        choose|q: Binary64| q.is_quotient_of(amount, UNITS_PER_COIN as nat)
    } else {
        amount
    }
}

/// Two to the power `e`, for the few small exponents that the division uses.
fn small_power_of_two(e: u64) -> (r: u128)
    requires
        e <= 27,
    ensures
        r == pow2(e as nat),
        r <= 0x800_0000,
{
    let mut r: u128 = 1;
    let mut i: u64 = 0;
    proof {
        lemma2_to64();
    }
    while i < e
        invariant
            i <= e <= 27,
            r == pow2(i as nat),
            pow2(27) == 0x800_0000,
        decreases e - i,
    {
        proof {
            lemma_pow2_unfold((i + 1) as nat);
            if i + 1 < 27 {
                lemma_pow2_strictly_increases((i + 1) as nat, 27);
            }
        }
        r = r * 2;
        i = i + 1;
    }
    r
}

/// The step from the floor of an exact quotient to the rounded quotient.
///
/// The dividend's absolute value is `(t * d + r) * p`: `t` is the floor of
/// the quotient in steps of `p`, and `r` is what the floor leaves over. `lo`
/// stands for the floor and `hi` for the next number up; `chosen` is `hi`
/// where the rest is more than half a step, or is half a step with `t` odd,
/// and `lo` otherwise.
proof fn lemma_rounding_picks_quotient(
    dividend: Binary64,
    d: nat,
    p: nat,
    t: nat,
    r: nat,
    lo: Binary64,
    hi: Binary64,
    chosen: Binary64,
)
    requires
        d > 0,
        p > 0,
        r < d,
        dividend.scaled_magnitude() == (t * d + r) * p,
        lo.is_finite(),
        hi.is_finite(),
        hi.magnitude() == lo.magnitude() + 1,
        lo.magnitude() % 2 == t % 2,
        lo.scaled_magnitude() == t * p,
        hi.scaled_magnitude() == (t + 1) * p,
        chosen.is_negative() == dividend.is_negative(),
        chosen.magnitude() == (if 2 * r > d || (2 * r == d && t % 2 == 1) {
            hi.magnitude()
        } else {
            lo.magnitude()
        }),
    ensures
        chosen.is_quotient_of(dividend, d),
{
    let x = dividend.scaled_magnitude() as int;
    let below = ((t * p) * d) as int;
    let step = (p * d) as int;
    let rest = (r * p) as int;
    assert(x == below + rest && 0 <= rest < step && ((t + 1) * p) * d == below + step) by (nonlinear_arith)
        requires
            x == (t * d + r) * p,
            r < d,
            p > 0,
            below == (t * p) * d,
            step == p * d,
            rest == r * p,
    ;
    assert((2 * r > d) == (2 * rest > step) && (2 * r == d) == (2 * rest == step)) by (nonlinear_arith)
        requires
            p > 0,
            step == p * d,
            rest == r * p,
    ;
    let up = 2 * r > d || (2 * r == d && t % 2 == 1);
    assert(chosen.scaled_magnitude() == (if up {
        hi.scaled_magnitude()
    } else {
        lo.scaled_magnitude()
    })) by {
        let same = if up {
            hi
        } else {
            lo
        };
        lemma_same_magnitude_same_value(chosen, same);
    }
    assert(lo.quotient_error(dividend, d) == rest);
    assert(hi.quotient_error(dividend, d) == step - rest);
    let e = chosen.quotient_error(dividend, d);
    assert(e == (if up {
        step - rest
    } else {
        rest
    }));
    assert forall|other: Binary64| other.is_finite() implies e <= #[trigger] other.quotient_error(
        dividend,
        d,
    ) by {
        lemma_error_outside(dividend, d, lo, hi, other, below, step, rest);
    }
    assert forall|other: Binary64|
        other.is_finite() && other.magnitude() != chosen.magnitude()
            && #[trigger] other.quotient_error(dividend, d) == e implies chosen.bits % 2 == 0 by {
        lemma_error_outside(dividend, d, lo, hi, other, below, step, rest);
        assert(2 * rest == step);
        assert(chosen.magnitude() % 2 == 0);
    }
}

/// Numbers with the same magnitude bits have the same absolute value.
proof fn lemma_same_magnitude_same_value(a: Binary64, b: Binary64)
    requires
        a.magnitude() == b.magnitude(),
    ensures
        a.scaled_magnitude() == b.scaled_magnitude(),
{
}

/// A finite number at or below `lo` errs by at least as much as `lo`, one at
/// or above `hi` by at least as much as `hi`, and strictly more unless it has
/// the same magnitude.
proof fn lemma_error_outside(
    dividend: Binary64,
    d: nat,
    lo: Binary64,
    hi: Binary64,
    other: Binary64,
    below: int,
    step: int,
    rest: int,
)
    requires
        d > 0,
        lo.is_finite(),
        hi.is_finite(),
        other.is_finite(),
        hi.magnitude() == lo.magnitude() + 1,
        lo.scaled_magnitude() * d == below,
        hi.scaled_magnitude() * d == below + step,
        dividend.scaled_magnitude() == below + rest,
        0 <= rest < step,
    ensures
        other.magnitude() <= lo.magnitude() ==> other.quotient_error(dividend, d) >= rest,
        other.magnitude() < lo.magnitude() ==> other.quotient_error(dividend, d) > rest,
        other.magnitude() == lo.magnitude() ==> other.quotient_error(dividend, d) == rest,
        other.magnitude() >= hi.magnitude() ==> other.quotient_error(dividend, d) >= step - rest,
        other.magnitude() > hi.magnitude() ==> other.quotient_error(dividend, d) > step - rest,
        other.magnitude() == hi.magnitude() ==> other.quotient_error(dividend, d) == step - rest,
{
    let so = other.scaled_magnitude();
    let sl = lo.scaled_magnitude();
    let sh = hi.scaled_magnitude();
    if other.magnitude() < lo.magnitude() {
        lemma_scaled_magnitude_increases(other, lo);
        assert(so * d < sl * d) by (nonlinear_arith)
            requires
                so < sl,
                d > 0,
        ;
    } else if other.magnitude() == lo.magnitude() {
        lemma_same_magnitude_same_value(other, lo);
    } else if other.magnitude() == hi.magnitude() {
        lemma_same_magnitude_same_value(other, hi);
    } else {
        lemma_scaled_magnitude_increases(hi, other);
        assert(sh * d < so * d) by (nonlinear_arith)
            requires
                sh < so,
                d > 0,
        ;
    }
}

/// By how many binary places the division lowers the exponent of a normal
/// number with significand `m`: by the 26 or 27 that leave the quotient's
/// significand 53 bits long.
spec fn places_dropped(m: nat) -> nat {
    if (m * 0x800_0000) / (UNITS_PER_COIN as nat) < 0x20_0000_0000_0000 {
        27
    } else {
        26
    }
}

/// The places that the division takes from the exponent of `amount`: those
/// that `places_dropped` gives, or all that the exponent has.
spec fn places_taken(amount: Binary64) -> nat {
    let drop = places_dropped(amount.significand());
    if amount.shift() < drop {
        amount.shift()
    } else {
        drop
    }
}

/// The quotient as the division computes it: the floor of the exact quotient
/// at the result's exponent, moved up by one where rounding asks for it.
spec fn computed_quotient(amount: Binary64) -> Binary64 {
    let d = UNITS_PER_COIN as nat;
    let n = amount.significand() * pow2(places_taken(amount));
    let t = n / d;
    let rest = n % d;
    let up: nat = if 2 * rest > d || (2 * rest == d && t % 2 == 1) {
        1
    } else {
        0
    };
    let w = amount.shift() - places_taken(amount);
    let sign = amount.bits - amount.magnitude();
    Binary64 { bits: (sign + (w * HIDDEN_BIT + (t + up))) as u64 }
}

/// The computed quotient is the rounded quotient.
proof fn lemma_computed_quotient(amount: Binary64)
    requires
        amount.is_finite(),
    ensures
        computed_quotient(amount).is_quotient_of(amount, UNITS_PER_COIN as nat),
        ({
            let n = amount.significand() * pow2(places_taken(amount));
            let w = amount.shift() - places_taken(amount);
            &&& n < 0x1_0000_0000_0000_0000_0000
            &&& n / (UNITS_PER_COIN as nat) < 0x20_0000_0000_0000
            &&& 0 <= w <= 2044
        }),
{
    let d = UNITS_PER_COIN as nat;
    let m = amount.significand();
    let k = amount.shift();
    let c = places_taken(amount);
    let scale = pow2(c);
    let n = m * scale;
    let t = n / d;
    let rest = n % d;
    let up: nat = if 2 * rest > d || (2 * rest == d && t % 2 == 1) {
        1
    } else {
        0
    };
    let w = (k - c) as nat;
    let r = computed_quotient(amount);
    lemma2_to64();
    if c < 26 {
        lemma_pow2_strictly_increases(c, 26);
    }
    assert(c == 27 ==> scale == 0x800_0000);
    assert(c < 27 ==> scale <= 0x400_0000);
    assert(m * scale <= m * 0x800_0000) by (nonlinear_arith)
        requires
            scale <= 0x800_0000,
    ;
    assert(c < 27 ==> m * scale <= m * 0x400_0000) by (nonlinear_arith)
        requires
            c < 27 ==> scale <= 0x400_0000,
    ;
    assert(t < 0x20_0000_0000_0000);
    if w > 0 {
        assert(c == places_dropped(m));
        assert(m >= HIDDEN_BIT);
        assert(t >= HIDDEN_BIT);
    }
    let p = pow2(w);
    lemma_pow2_pos(w);
    lemma_assembled_value(w, t);
    lemma_assembled_value(w, t + 1);
    let lo = Binary64 { bits: (w * HIDDEN_BIT + t) as u64 };
    let hi = Binary64 { bits: (w * HIDDEN_BIT + t + 1) as u64 };
    assert(amount.scaled_magnitude() == (t * d + rest) * p) by {
        lemma_pow2_adds(c, w);
        assert(n == t * d + rest);
        assert(m * pow2(k) == (m * pow2(c)) * p) by (nonlinear_arith)
            requires
                pow2(k) == pow2(c) * p,
        ;
    }
    assert((w * HIDDEN_BIT + t) % 2 == t % 2) by (nonlinear_arith)
        requires
            HIDDEN_BIT == 0x0010_0000_0000_0000,
    ;
    assert(r.magnitude() == w * HIDDEN_BIT + (t + up));
    lemma_rounding_picks_quotient(amount, d, p, t, rest, lo, hi, r);
}

/// For a finite amount `coins_of` is well defined: it is the one number that
/// is the amount divided by `UNITS_PER_COIN` and rounded to the nearest
/// binary64 number, to the even one of two that are equally near.
pub proof fn lemma_coins_of_is_quotient(amount: Binary64)
    requires
        amount.is_finite(),
    ensures
        coins_of(amount).is_quotient_of(amount, UNITS_PER_COIN as nat),
        forall|q: Binary64|
            q.is_quotient_of(amount, UNITS_PER_COIN as nat) ==> q == coins_of(amount),
{
    lemma_computed_quotient(amount);
    assert forall|q: Binary64| q.is_quotient_of(amount, UNITS_PER_COIN as nat) implies q
        == coins_of(amount) by {
        lemma_quotient_is_unique(q, coins_of(amount), amount, UNITS_PER_COIN as nat);
    }
}

/// Converts an amount of smallest units to coins.
///
/// For a finite amount the result is the amount divided by `UNITS_PER_COIN`,
/// bit for bit what the IEEE 754 division gives: the quotient rounded to the
/// nearest binary64 number, to the even one of two that are equally near,
/// with the sign kept. An infinity or a NaN comes back as it is.
pub fn to_coins(amount: Binary64) -> (r: Binary64)
    ensures
        r == coins_of(amount),
        amount.is_finite() ==> r.is_quotient_of(amount, UNITS_PER_COIN as nat),
        !amount.is_finite() ==> r == amount,
{
    let mag: u64 = amount.abs_bits();
    if mag >= INFINITY_BITS {
        return amount;
    }
    let sign: u64 = amount.bits - mag;
    let e: u64 = mag / HIDDEN_BIT;
    let f: u64 = mag % HIDDEN_BIT;
    let m: u64 = if e == 0 {
        f
    } else {
        HIDDEN_BIT + f
    };
    let k: u64 = if e == 0 {
        0
    } else {
        e - 1
    };
    let d: u128 = UNITS_PER_COIN as u128;
    let wide: u128 = m as u128;
    let drop: u64 = if (wide * 0x800_0000) / d < 0x20_0000_0000_0000 {
        27
    } else {
        26
    };
    let c: u64 = if k < drop {
        k
    } else {
        drop
    };
    proof {
        lemma_computed_quotient(amount);
        lemma_coins_of_is_quotient(amount);
        assert(c == places_taken(amount));
    }
    let n: u128 = wide * small_power_of_two(c);
    let t: u128 = n / d;
    let rest: u128 = n % d;
    let up: bool = 2 * rest > d || (2 * rest == d && t % 2 == 1);
    let w: u64 = k - c;
    let floor: u64 = t as u64;
    let rounded: u64 = if up {
        floor + 1
    } else {
        floor
    };
    assert(w * HIDDEN_BIT + rounded <= 2044 * HIDDEN_BIT + 0x20_0000_0000_0000) by (nonlinear_arith)
        requires
            w <= 2044,
            rounded <= 0x20_0000_0000_0000,
    ;
    let r = Binary64 { bits: sign + (w * HIDDEN_BIT + rounded) };
    assert(r == computed_quotient(amount));
    r
}

} // verus!
