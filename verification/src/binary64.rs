//! IEEE 754 binary64 numbers, held by their bit patterns.
//!
//! Fee rates and amounts arrive as binary64 numbers. The verified code never
//! computes with the hardware's arithmetic on them: a number is carried as the
//! 64 bits that encode it, and the two operations the monitor needs, the order
//! `<` and the division of an amount by the number of smallest units in a coin,
//! are integer algorithms on those bits, proved against the numeric value that
//! the bits stand for.

use vstd::prelude::*;
use vstd::arithmetic::power2::*;

verus! {

/// The sign bit of the encoding.
pub const SIGN_BIT: u64 = 0x8000_0000_0000_0000;

/// Two to the 52nd power: the weight of the implicit leading bit of a normal
/// number's significand, and the place of the lowest exponent bit.
pub const HIDDEN_BIT: u64 = 0x0010_0000_0000_0000;

/// The magnitude bits of an infinity: all exponent bits set, fraction zero.
pub const INFINITY_BITS: u64 = 0x7ff0_0000_0000_0000;

/// A binary64 number, as its bit pattern.
///
/// The derived `==` compares bit patterns. It tells `+0` from `-0` and equates
/// a NaN with itself, which the numeric comparison does not.
#[derive(Clone, Copy, Debug, PartialEq, Eq, Structural)]
pub struct Binary64 {
    pub bits: u64,
}

impl Binary64 {
    /// Whether the sign bit is set.
    pub open spec fn is_negative(self) -> bool {
        self.bits >= SIGN_BIT
    }

    /// The pattern without its sign bit.
    pub open spec fn magnitude(self) -> u64 {
        if self.bits >= SIGN_BIT {
            (self.bits - SIGN_BIT) as u64
        } else {
            self.bits
        }
    }

    /// The biased exponent field, 0 to 2047.
    pub open spec fn exponent_field(self) -> nat {
        (self.magnitude() / HIDDEN_BIT) as nat
    }

    /// The 52 fraction bits.
    pub open spec fn fraction(self) -> nat {
        (self.magnitude() % HIDDEN_BIT) as nat
    }

    pub open spec fn is_nan(self) -> bool {
        self.magnitude() > INFINITY_BITS
    }

    pub open spec fn is_infinite(self) -> bool {
        self.magnitude() == INFINITY_BITS
    }

    pub open spec fn is_finite(self) -> bool {
        self.magnitude() < INFINITY_BITS
    }

    /// The significand as a whole number: the fraction bits, with the implicit
    /// leading bit unless the number is subnormal or zero.
    pub open spec fn significand(self) -> nat {
        if self.exponent_field() == 0 {
            self.fraction()
        } else {
            HIDDEN_BIT as nat + self.fraction()
        }
    }

    /// The power of two by which the significand is multiplied to give the
    /// magnitude in units of 2^-1074.
    pub open spec fn shift(self) -> nat {
        if self.exponent_field() == 0 {
            0
        } else {
            (self.exponent_field() - 1) as nat
        }
    }

    /// The absolute value in units of 2^-1074, the smallest positive binary64
    /// number. Every finite binary64 number is a whole multiple of that unit.
    /// An infinity gets the value that the next exponent would give, above
    /// every finite number. Not meaningful for a NaN.
    pub open spec fn scaled_magnitude(self) -> nat {
        self.significand() * pow2(self.shift())
    }

    /// The value in units of 2^-1074, with its sign. Both zeros give 0.
    pub open spec fn scaled_value(self) -> int {
        if self.is_negative() {
            -(self.scaled_magnitude() as int)
        } else {
            self.scaled_magnitude() as int
        }
    }

    /// The place of the number among all binary64 numbers by value: the
    /// magnitude bits, negated under a set sign bit. Both zeros have rank 0.
    pub open spec fn rank(self) -> int {
        if self.is_negative() {
            -(self.magnitude() as int)
        } else {
            self.magnitude() as int
        }
    }

    /// The numeric `<` of IEEE 754: false when either side is a NaN, otherwise
    /// the order of the ranks.
    pub open spec fn less_than(self, other: Binary64) -> bool {
        &&& !self.is_nan()
        &&& !other.is_nan()
        &&& self.rank() < other.rank()
    }

    /// How far `self` times `divisor` lies from `dividend`, in units of
    /// 2^-1074 and without regard to sign: the error of `self` as a quotient
    /// of `dividend` by `divisor`, multiplied by `divisor`.
    pub open spec fn quotient_error(self, dividend: Binary64, divisor: nat) -> int {
        let d = self.scaled_magnitude() * divisor - dividend.scaled_magnitude();
        if d < 0 {
            -d
        } else {
            d
        }
    }

    /// Whether `self` is `dividend` divided by the whole number `divisor` as
    /// IEEE 754 rounds a quotient: it has the dividend's sign, no finite
    /// number is nearer to the exact quotient, and where another is as near,
    /// `self` is the one whose last bit is 0.
    pub open spec fn is_quotient_of(self, dividend: Binary64, divisor: nat) -> bool {
        &&& self.is_finite()
        &&& self.is_negative() == dividend.is_negative()
        &&& forall|other: Binary64|
            other.is_finite() ==> self.quotient_error(dividend, divisor)
                <= #[trigger] other.quotient_error(dividend, divisor)
        &&& forall|other: Binary64|
            other.is_finite() && other.magnitude() != self.magnitude()
                && #[trigger] other.quotient_error(dividend, divisor) == self.quotient_error(
                dividend,
                divisor,
            ) ==> self.bits % 2 == 0
    }

    /// Positive zero.
    pub fn zero() -> (r: Binary64)
        ensures
            r.bits == 0,
    {
        Binary64 { bits: 0 }
    }

    /// The number with the given bit pattern.
    pub fn from_bits(bits: u64) -> (r: Binary64)
        ensures
            r.bits == bits,
    {
        Binary64 { bits }
    }

    /// The bit pattern.
    pub fn to_bits(&self) -> (r: u64)
        ensures
            r == self.bits,
    {
        self.bits
    }

    /// The pattern without its sign bit.
    pub fn abs_bits(&self) -> (r: u64)
        ensures
            r == self.magnitude(),
    {
        if self.bits >= SIGN_BIT {
            self.bits - SIGN_BIT
        } else {
            self.bits
        }
    }

    /// Numeric `<`.
    pub fn lt(&self, other: &Binary64) -> (r: bool)
        ensures
            r == self.less_than(*other),
    {
        let a: u64 = self.abs_bits();
        let b: u64 = other.abs_bits();
        if a > INFINITY_BITS || b > INFINITY_BITS {
            false
        } else if self.bits >= SIGN_BIT {
            if other.bits >= SIGN_BIT {
                b < a
            } else {
                a > 0 || b > 0
            }
        } else {
            other.bits < SIGN_BIT && a < b
        }
    }
}

/// Among patterns that are not NaNs, a larger magnitude pattern stands for a
/// larger absolute value.
pub proof fn lemma_scaled_magnitude_increases(a: Binary64, b: Binary64)
    requires
        a.magnitude() < b.magnitude(),
        !b.is_nan(),
    ensures
        a.scaled_magnitude() < b.scaled_magnitude(),
{
    let ea = a.exponent_field();
    let eb = b.exponent_field();
    let fa = a.fraction();
    let fb = b.fraction();
    let h = HIDDEN_BIT as nat;
    assert(ea <= eb);
    lemma_pow2_pos(a.shift());
    lemma_pow2_pos(b.shift());
    if ea == eb {
        assert(fa < fb);
        assert(a.significand() < b.significand());
        let p = pow2(a.shift());
        assert(a.significand() * p < b.significand() * p) by (nonlinear_arith)
            requires
                a.significand() < b.significand(),
                p > 0,
        ;
    } else if ea == 0 {
        let p = pow2(b.shift());
        assert(b.significand() * p >= h) by (nonlinear_arith)
            requires
                b.significand() >= h,
                p >= 1,
        ;
        assert(pow2(0) == 1) by {
            lemma2_to64();
        }
    } else {
        let pa = pow2(a.shift());
        let pb = pow2(b.shift());
        assert(pow2(a.shift() + 1) == 2 * pa) by {
            lemma_pow2_unfold(a.shift() + 1);
        }
        assert(pow2(a.shift() + 1) <= pb) by {
            if a.shift() + 1 < b.shift() {
                lemma_pow2_strictly_increases(a.shift() + 1, b.shift());
            }
        }
        assert(a.significand() * pa < 2 * h * pa) by (nonlinear_arith)
            requires
                a.significand() < 2 * h,
                pa > 0,
        ;
        assert(h * (2 * pa) <= b.significand() * pb) by (nonlinear_arith)
            requires
                2 * pa <= pb,
                h <= b.significand(),
        ;
        assert(2 * h * pa == h * (2 * pa)) by (nonlinear_arith);
    }
}

/// The order of the ranks is the order of the values: for two numbers that are
/// not NaNs, `less_than` holds exactly when the first value is the smaller.
pub proof fn lemma_less_than_is_numeric(a: Binary64, b: Binary64)
    requires
        !a.is_nan(),
        !b.is_nan(),
    ensures
        a.less_than(b) <==> a.scaled_value() < b.scaled_value(),
{
    lemma_scaled_magnitude_zero(a);
    lemma_scaled_magnitude_zero(b);
    if a.magnitude() < b.magnitude() {
        lemma_scaled_magnitude_increases(a, b);
    } else if b.magnitude() < a.magnitude() {
        lemma_scaled_magnitude_increases(b, a);
    } else {
        assert(a.scaled_magnitude() == b.scaled_magnitude());
    }
}

/// Only the zero magnitude stands for the value zero.
pub proof fn lemma_scaled_magnitude_zero(a: Binary64)
    requires
        !a.is_nan(),
    ensures
        a.scaled_magnitude() == 0 <==> a.magnitude() == 0,
{
    if a.magnitude() == 0 {
        assert(a.significand() == 0);
        assert(a.scaled_magnitude() == 0) by (nonlinear_arith)
            requires
                a.scaled_magnitude() == a.significand() * pow2(a.shift()),
                a.significand() == 0,
        ;
    } else {
        let z = Binary64 { bits: 0 };
        lemma_scaled_magnitude_increases(z, a);
    }
}

/// The pattern put together from an exponent step `w` and a significand `t`
/// has the value `t` times two to the `w`, also where `t` has reached two to
/// the 53rd and carries into the exponent.
pub proof fn lemma_assembled_value(w: nat, t: nat)
    requires
        w <= 2044,
        t <= 2 * HIDDEN_BIT,
        w > 0 ==> t >= HIDDEN_BIT,
    ensures
        w * HIDDEN_BIT + t < INFINITY_BITS,
        ({
            let b = Binary64 { bits: (w * HIDDEN_BIT + t) as u64 };
            &&& b.magnitude() == w * HIDDEN_BIT + t
            &&& b.is_finite()
            &&& b.scaled_magnitude() == t * pow2(w)
        }),
{
    let h = HIDDEN_BIT as nat;
    let b = Binary64 { bits: (w * h + t) as u64 };
    assert(w * h + t <= 2046 * h) by (nonlinear_arith)
        requires
            w <= 2044,
            t <= 2 * h,
    ;
    assert(b.magnitude() == w * h + t);
    if t < h {
        assert(w == 0);
        assert(b.exponent_field() == 0);
        assert(b.fraction() == t);
        assert(pow2(0) == 1) by {
            lemma2_to64();
        }
    } else if t < 2 * h {
        assert(b.exponent_field() == w + 1 && b.fraction() == t - h) by (nonlinear_arith)
            requires
                b.exponent_field() == (w * h + t) / h,
                b.fraction() == (w * h + t) % h,
                h <= t < 2 * h,
                h > 0,
        ;
    } else {
        assert(b.exponent_field() == w + 2 && b.fraction() == 0) by (nonlinear_arith)
            requires
                b.exponent_field() == (w * h + t) / h,
                b.fraction() == (w * h + t) % h,
                t == 2 * h,
                h > 0,
        ;
        assert(pow2(w + 1) == 2 * pow2(w)) by {
            lemma_pow2_unfold(w + 1);
        }
        assert(h * (2 * pow2(w)) == (2 * h) * pow2(w)) by (nonlinear_arith);
    }
}

/// At most one number is the rounded quotient of a dividend by a divisor.
pub proof fn lemma_quotient_is_unique(a: Binary64, b: Binary64, dividend: Binary64, divisor: nat)
    requires
        divisor > 0,
        a.is_quotient_of(dividend, divisor),
        b.is_quotient_of(dividend, divisor),
    ensures
        a == b,
{
    let ea = a.quotient_error(dividend, divisor);
    let eb = b.quotient_error(dividend, divisor);
    assert(ea <= eb);
    assert(eb <= ea);
    if a.magnitude() != b.magnitude() {
        assert(a.bits % 2 == 0);
        assert(b.bits % 2 == 0);
        let (lo, hi) = if a.magnitude() < b.magnitude() {
            (a, b)
        } else {
            (b, a)
        };
        let mid = Binary64 { bits: (lo.magnitude() + 1) as u64 };
        assert(lo.magnitude() % 2 == 0 && hi.magnitude() % 2 == 0);
        assert(mid.magnitude() == lo.magnitude() + 1);
        assert(mid.magnitude() < hi.magnitude());
        lemma_scaled_magnitude_increases(lo, mid);
        lemma_scaled_magnitude_increases(mid, hi);
        let x = dividend.scaled_magnitude() as int;
        let pl = lo.scaled_magnitude() * divisor;
        let pm = mid.scaled_magnitude() * divisor;
        let ph = hi.scaled_magnitude() * divisor;
        assert(pl < pm && pm < ph) by (nonlinear_arith)
            requires
                lo.scaled_magnitude() < mid.scaled_magnitude(),
                mid.scaled_magnitude() < hi.scaled_magnitude(),
                divisor > 0,
                pl == lo.scaled_magnitude() * divisor,
                pm == mid.scaled_magnitude() * divisor,
                ph == hi.scaled_magnitude() * divisor,
        ;
        assert(lo.quotient_error(dividend, divisor) == hi.quotient_error(dividend, divisor));
        assert(lo.quotient_error(dividend, divisor) <= mid.quotient_error(dividend, divisor));
        assert(false);
    }
}


} // verus!
