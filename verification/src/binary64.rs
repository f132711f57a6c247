//! IEEE 754 binary64 numbers as bit patterns, with their real values and
//! their order.

use vstd::prelude::*;
use vstd::arithmetic::power2::{pow2, lemma_pow2_pos, lemma_pow2_unfold, lemma_pow2_strictly_increases};

verus! {

/// Weight of the sign bit of a pattern.
pub const SIGN_BIT: u64 = 0x8000_0000_0000_0000;

/// Weight of the lowest exponent bit: two to the power fifty-two.
pub const HIDDEN_BIT: u64 = 0x0010_0000_0000_0000;

/// The exponent field in which every bit is set; it marks infinities and
/// patterns that are not numbers.
pub const EXPONENT_LIMIT: u64 = 2047;

/// A number in the IEEE 754 binary64 interchange format, held as its pattern of
/// 64 bits: one sign bit, eleven exponent bits, fifty-two fraction bits.
#[derive(Clone, Copy, Debug)]
pub struct Binary64 {
    pub bits: u64,
}

impl Binary64 {
    /// Whether the sign bit is set.
    pub open spec fn negative(self) -> bool {
        self.bits >= SIGN_BIT
    }

    /// The pattern without its sign bit.
    pub open spec fn magnitude(self) -> nat {
        (self.bits % SIGN_BIT) as nat
    }

    /// The biased exponent field.
    pub open spec fn exponent(self) -> nat {
        self.magnitude() / (HIDDEN_BIT as nat)
    }

    /// The fraction field.
    pub open spec fn fraction(self) -> nat {
        self.magnitude() % (HIDDEN_BIT as nat)
    }

    /// The pattern stands for a real number: it is neither an infinity nor
    /// a pattern that is not a number.
    pub open spec fn finite(self) -> bool {
        self.exponent() < EXPONENT_LIMIT
    }

    /// The absolute value in units of two to the power -1074, the spacing of
    /// the subnormal numbers. Every finite binary64 number is a whole number
    /// of these units.
    pub open spec fn units(self) -> nat {
        units_of(self.magnitude())
    }

    /// The value in units of two to the power -1074, with its sign.
    pub open spec fn signed_units(self) -> int {
        if self.negative() {
            -(self.units() as int)
        } else {
            self.units() as int
        }
    }

    /// The real number that a finite pattern stands for.
    pub open spec fn value(self) -> real {
        (self.signed_units() as real) / (pow2(1074) as real)
    }

    /// An integer that orders the patterns as their values are ordered: the
    /// magnitude, negated where the sign bit is set.
    pub open spec fn order_key(self) -> int {
        if self.negative() {
            -(self.magnitude() as int)
        } else {
            self.magnitude() as int
        }
    }

    /// Wraps a pattern of bits.
    pub fn from_bits(bits: u64) -> (r: Self)
        ensures
            r.bits == bits,
    {
        Binary64 { bits }
    }

    /// The pattern of bits.
    pub fn to_bits(&self) -> (r: u64)
        ensures
            r == self.bits,
    {
        self.bits
    }

    /// Whether the pattern stands for a real number.
    pub fn is_finite(&self) -> (r: bool)
        ensures
            r == self.finite(),
    {
        let magnitude: u64 = self.bits % SIGN_BIT;
        magnitude / HIDDEN_BIT < EXPONENT_LIMIT
    }

    /// The order key as a machine integer.
    pub fn key(&self) -> (r: i64)
        ensures
            r == self.order_key(),
    {
        let magnitude: u64 = self.bits % SIGN_BIT;
        if self.bits >= SIGN_BIT {
            -(magnitude as i64)
        } else {
            magnitude as i64
        }
    }

    /// Whether `self` is strictly less than `other` as a real number.
    pub fn lt(&self, other: &Binary64) -> (r: bool)
        requires
            self.finite(),
            other.finite(),
        ensures
            r == (self.value() < other.value()),
    {
        proof {
            lemma_key_orders_values(*self, *other);
        }
        self.key() < other.key()
    }

    /// Whether `self` is at most `other` as a real number.
    pub fn le(&self, other: &Binary64) -> (r: bool)
        requires
            self.finite(),
            other.finite(),
        ensures
            r == (self.value() <= other.value()),
    {
        proof {
            lemma_key_orders_values(*self, *other);
        }
        self.key() <= other.key()
    }

    /// Whether `self` and `other` are the same real number. The two zeros,
    /// which differ in their sign bit, are the same number.
    pub fn same_value(&self, other: &Binary64) -> (r: bool)
        requires
            self.finite(),
            other.finite(),
        ensures
            r == (self.value() == other.value()),
    {
        proof {
            lemma_key_orders_values(*self, *other);
        }
        self.key() == other.key()
    }
}

/// The number of units of two to the power -1074 in the number whose pattern,
/// without the sign bit, is `magnitude`: the fraction itself for a subnormal
/// number, and the fraction with its hidden bit, shifted by the exponent, for
/// a normal one.
pub open spec fn units_of(magnitude: nat) -> nat {
    let exponent = magnitude / (HIDDEN_BIT as nat);
    let fraction = magnitude % (HIDDEN_BIT as nat);
    if exponent == 0 {
        fraction
    } else {
        (HIDDEN_BIT as nat + fraction) * pow2((exponent - 1) as nat)
    }
}

/// A larger magnitude holds more units.
pub proof fn lemma_units_increase(a: nat, b: nat)
    requires
        a < b,
    ensures
        units_of(a) < units_of(b),
{
    let h = HIDDEN_BIT as nat;
    let ea = a / h;
    let fa = a % h;
    let eb = b / h;
    let fb = b % h;
    assert(a == h * ea + fa && b == h * eb + fb) by {
        vstd::arithmetic::div_mod::lemma_fundamental_div_mod(a as int, h as int);
        vstd::arithmetic::div_mod::lemma_fundamental_div_mod(b as int, h as int);
    }
    assert(ea <= eb) by (nonlinear_arith)
        requires
            a < b,
            h > 0,
            ea == a / h,
            eb == b / h,
    ;
    if ea == eb {
        assert(fa < fb);
        if ea > 0 {
            let scale = pow2((ea - 1) as nat);
            lemma_pow2_pos((ea - 1) as nat);
            assert((h + fa) * scale < (h + fb) * scale) by (nonlinear_arith)
                requires
                    fa < fb,
                    scale > 0,
            ;
        }
    } else {
        let high = pow2((eb - 1) as nat);
        lemma_pow2_pos((eb - 1) as nat);
        assert(h * high <= (h + fb) * high) by (nonlinear_arith)
            requires
                high > 0,
                fb >= 0,
        ;
        if ea == 0 {
            assert(h * 1 <= h * high) by (nonlinear_arith)
                requires
                    high >= 1,
                    h > 0,
            ;
        } else {
            let low = pow2((ea - 1) as nat);
            lemma_pow2_pos((ea - 1) as nat);
            lemma_pow2_unfold(ea);
            assert(pow2(ea) <= high) by {
                if ea < eb - 1 {
                    lemma_pow2_strictly_increases(ea, (eb - 1) as nat);
                }
            }
            assert((h + fa) * low < h * (2 * low)) by (nonlinear_arith)
                requires
                    fa < h,
                    low > 0,
            ;
            assert(h * (2 * low) <= h * high) by (nonlinear_arith)
                requires
                    2 * low <= high,
                    h > 0,
            ;
        }
    }
}

/// The order of the keys of two patterns is the order of their values, and
/// two patterns have one key exactly when they have one value.
pub proof fn lemma_key_orders_values(a: Binary64, b: Binary64)
    ensures
        a.order_key() < b.order_key() <==> a.value() < b.value(),
        a.order_key() == b.order_key() <==> a.value() == b.value(),
        a.order_key() <= b.order_key() <==> a.value() <= b.value(),
{
    let ma = a.magnitude();
    let mb = b.magnitude();
    if ma < mb {
        lemma_units_increase(ma, mb);
    }
    if mb < ma {
        lemma_units_increase(mb, ma);
    }
    if 0 < ma {
        lemma_units_increase(0, ma);
    }
    if 0 < mb {
        lemma_units_increase(0, mb);
    }
    assert(units_of(0) == 0);
    assert(a.order_key() < b.order_key() <==> a.signed_units() < b.signed_units());
    assert(a.order_key() == b.order_key() <==> a.signed_units() == b.signed_units());
    lemma_pow2_pos(1074);
    let unit = pow2(1074) as real;
    let x = a.signed_units() as real;
    let y = b.signed_units() as real;
    assert((x < y) <==> (x / unit < y / unit)) by (nonlinear_arith)
        requires
            unit > 0real,
    ;
    assert((x == y) <==> (x / unit == y / unit)) by (nonlinear_arith)
        requires
            unit > 0real,
    ;
}

} // verus!
