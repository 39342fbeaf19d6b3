//! Binary32 numbers as bit patterns, with the order IEEE 754 gives them.

use vstd::arithmetic::power2::{
    lemma_pow2_pos, lemma_pow2_strictly_increases, lemma_pow2_unfold, pow2,
};
use vstd::prelude::*;

verus! {

/// The bit that carries the sign of a binary32 number.
pub const SIGN_BIT: u32 = 0x8000_0000;

/// The magnitude of an infinity: exponent all ones, fraction zero.
pub const INFINITY_MAGNITUDE: u32 = 0x7f80_0000;

/// The weight of the exponent field: two to the number of fraction bits.
pub const HIDDEN_BIT: u32 = 0x80_0000;

/// What a magnitude stands for, counted in units of 2^-149, the smallest
/// positive binary32 number: with exponent field `e` and fraction `f`, it is
/// `f` when `e` is zero and `(2^23 + f) * 2^(e - 1)` otherwise. The magnitude
/// of the infinities thereby stands for the first power of two beyond every
/// finite number.
pub open spec fn scaled(magnitude: int) -> int {
    let e = magnitude / (HIDDEN_BIT as int);
    let f = magnitude % (HIDDEN_BIT as int);
    if e == 0 {
        f
    } else {
        (HIDDEN_BIT + f) * pow2((e - 1) as nat)
    }
}

/// A larger magnitude stands for a larger number.
pub proof fn lemma_scaled_increases(m1: int, m2: int)
    requires
        0 <= m1 < m2,
    ensures
        0 <= scaled(m1) < scaled(m2),
{
    let h = HIDDEN_BIT as int;
    let e1 = m1 / h;
    let f1 = m1 % h;
    let e2 = m2 / h;
    let f2 = m2 % h;
    assert(0 <= e1 <= e2 && 0 <= f1 < h && 0 <= f2 < h && m1 == e1 * h + f1 && m2 == e2 * h
        + f2 && (e1 == e2 ==> f1 < f2)) by (nonlinear_arith)
        requires
            0 <= m1 < m2,
            h == 0x80_0000,
            e1 == m1 / h,
            f1 == m1 % h,
            e2 == m2 / h,
            f2 == m2 % h,
    ;
    if e1 > 0 {
        lemma_pow2_pos((e1 - 1) as nat);
    }
    if e2 > 0 {
        lemma_pow2_pos((e2 - 1) as nat);
    }
    if e1 == e2 {
        if e1 > 0 {
            let p = pow2((e1 - 1) as nat) as int;
            assert((h + f1) * p < (h + f2) * p) by (nonlinear_arith)
                requires
                    f1 < f2,
                    p > 0,
            ;
            assert(0 <= (h + f1) * p) by (nonlinear_arith)
                requires
                    0 <= f1,
                    h > 0,
                    p > 0,
            ;
        }
    } else {
        let high = pow2((e2 - 1) as nat) as int;
        assert(h * high <= (h + f2) * high) by (nonlinear_arith)
            requires
                0 <= f2,
                high > 0,
        ;
        if e1 == 0 {
            assert(h <= h * high) by (nonlinear_arith)
                requires
                    h > 0,
                    high >= 1,
            ;
        } else {
            let low = pow2((e1 - 1) as nat) as int;
            lemma_pow2_unfold(e1 as nat);
            if e1 < e2 - 1 {
                lemma_pow2_strictly_increases(e1 as nat, (e2 - 1) as nat);
            }
            assert(pow2(e1 as nat) <= high);
            assert((h + f1) * low < h * (2 * low)) by (nonlinear_arith)
                requires
                    f1 < h,
                    low > 0,
            ;
            assert(0 <= (h + f1) * low) by (nonlinear_arith)
                requires
                    0 <= f1,
                    h > 0,
                    low > 0,
            ;
            assert(h * (2 * low) <= h * high) by (nonlinear_arith)
                requires
                    h > 0,
                    2 * low <= high,
            ;
        }
    }
}

/// An IEEE 754 binary32 number, held as its 32 bits: one sign bit, eight
/// exponent bits, twenty-three fraction bits.
#[derive(Clone, Copy, Debug)]
pub struct Scalar {
    pub bits: u32,
}

impl Scalar {
    /// True when the sign bit is set (this holds of `-0.0` too).
    pub open spec fn sign_negative(self) -> bool {
        self.bits >= SIGN_BIT
    }

    /// The bits without the sign: exponent and fraction read as one number.
    pub open spec fn magnitude(self) -> int {
        if self.bits >= SIGN_BIT {
            self.bits - SIGN_BIT
        } else {
            self.bits as int
        }
    }

    /// A NaN has an exponent of all ones and a fraction that is not zero.
    pub open spec fn nan(self) -> bool {
        self.magnitude() > INFINITY_MAGNITUDE
    }

    /// The bits read as a sign and a magnitude. Ranks compare as the numbers
    /// do that the bits stand for, so comparing takes no arithmetic beyond
    /// this. Both zeros have rank 0.
    pub open spec fn rank(self) -> int {
        if self.sign_negative() {
            -self.magnitude()
        } else {
            self.magnitude()
        }
    }

    /// The number that the bits stand for, counted in units of 2^-149, with
    /// its sign. It is meant for what is not a NaN.
    pub open spec fn value(self) -> int {
        if self.sign_negative() {
            -scaled(self.magnitude())
        } else {
            scaled(self.magnitude())
        }
    }

    /// Ranks order the bit patterns as the numbers that they stand for.
    pub proof fn lemma_rank_orders_values(self, other: Scalar)
        ensures
            self.rank() < other.rank() <==> self.value() < other.value(),
            self.rank() == other.rank() <==> self.value() == other.value(),
    {
        let a = self.magnitude();
        let b = other.magnitude();
        assert(scaled(0) == 0);
        if a > 0 {
            lemma_scaled_increases(0, a);
        }
        if b > 0 {
            lemma_scaled_increases(0, b);
        }
        if a < b {
            lemma_scaled_increases(a, b);
        }
        if b < a {
            lemma_scaled_increases(b, a);
        }
    }

    /// `self < other` as IEEE 754 defines it: false when either is a NaN.
    pub open spec fn spec_lt(&self, other: &Scalar) -> bool {
        !self.nan() && !other.nan() && self.value() < other.value()
    }

    /// `self <= other` as IEEE 754 defines it: false when either is a NaN.
    pub open spec fn spec_le(&self, other: &Scalar) -> bool {
        !self.nan() && !other.nan() && self.value() <= other.value()
    }

    /// `self == other` as IEEE 754 defines it: a NaN equals nothing, and the
    /// two zeros are equal.
    pub open spec fn same_number(&self, other: &Scalar) -> bool {
        !self.nan() && !other.nan() && self.value() == other.value()
    }

    /// The number with the sign bit flipped.
    pub open spec fn spec_neg(self) -> Scalar {
        if self.bits >= SIGN_BIT {
            Scalar { bits: (self.bits - SIGN_BIT) as u32 }
        } else {
            Scalar { bits: (self.bits + SIGN_BIT) as u32 }
        }
    }

    pub fn from_bits(bits: u32) -> (r: Scalar)
        ensures
            r.bits == bits,
    {
        Scalar { bits }
    }

    pub fn to_bits(&self) -> (r: u32)
        ensures
            r == self.bits,
    {
        self.bits
    }

    /// Positive zero.
    pub fn zero() -> (r: Scalar)
        ensures
            r.bits == 0,
    {
        Scalar { bits: 0 }
    }

    /// Positive infinity.
    pub fn infinity() -> (r: Scalar)
        ensures
            r.bits == INFINITY_MAGNITUDE,
    {
        Scalar { bits: INFINITY_MAGNITUDE }
    }

    fn exec_rank(&self) -> (k: i64)
        ensures
            k == self.rank(),
    {
        if self.bits >= SIGN_BIT {
            let m: u32 = self.bits - SIGN_BIT;
            -(m as i64)
        } else {
            self.bits as i64
        }
    }

    pub fn is_nan(&self) -> (r: bool)
        ensures
            r == self.nan(),
    {
        let m: u32 = if self.bits >= SIGN_BIT {
            self.bits - SIGN_BIT
        } else {
            self.bits
        };
        m > INFINITY_MAGNITUDE
    }

    pub fn is_sign_negative(&self) -> (r: bool)
        ensures
            r == self.sign_negative(),
    {
        self.bits >= SIGN_BIT
    }

    #[verifier::when_used_as_spec(spec_lt)]
    pub fn lt(&self, other: &Scalar) -> (r: bool)
        ensures
            r == self.spec_lt(other),
    {
        proof {
            self.lemma_rank_orders_values(*other);
        }
        !self.is_nan() && !other.is_nan() && self.exec_rank() < other.exec_rank()
    }

    #[verifier::when_used_as_spec(spec_le)]
    pub fn le(&self, other: &Scalar) -> (r: bool)
        ensures
            r == self.spec_le(other),
    {
        proof {
            self.lemma_rank_orders_values(*other);
        }
        !self.is_nan() && !other.is_nan() && self.exec_rank() <= other.exec_rank()
    }

    /// Negation: flips the sign and keeps every other bit, for NaNs too.
    #[verifier::when_used_as_spec(spec_neg)]
    pub fn neg(self) -> (r: Scalar)
        ensures
            r == self.spec_neg(),
            r.bits == self.bits ^ SIGN_BIT,
            r.magnitude() == self.magnitude(),
            r.sign_negative() != self.sign_negative(),
            r.nan() == self.nan(),
            r.value() == -self.value(),
    {
        let bits = self.bits;
        assert(bits >= 0x8000_0000u32 ==> bits ^ 0x8000_0000u32 == (bits - 0x8000_0000u32) as u32)
            by (bit_vector);
        assert(bits < 0x8000_0000u32 ==> bits ^ 0x8000_0000u32 == (bits + 0x8000_0000u32) as u32)
            by (bit_vector);
        Scalar { bits: bits ^ SIGN_BIT }
    }
}

impl PartialEq for Scalar {
    fn eq(&self, other: &Scalar) -> (r: bool) {
        proof {
            self.lemma_rank_orders_values(*other);
        }
        !self.is_nan() && !other.is_nan() && self.exec_rank() == other.exec_rank()
    }
}

impl vstd::std_specs::cmp::PartialEqSpecImpl for Scalar {
    open spec fn obeys_eq_spec() -> bool {
        true
    }

    open spec fn eq_spec(&self, other: &Scalar) -> bool {
        self.same_number(other)
    }
}

} // verus!
