//! Double-precision numbers held by their IEEE 754 binary64 encoding.
//!
//! A `Scalar` is the 64 bits of a double: one sign bit, eleven exponent bits,
//! fifty-two fraction bits. Everything here is integer work on that encoding:
//! ordering, negation, absolute value. Nothing here rounds; arithmetic that
//! does is the caller's business.

use vstd::prelude::*;
use vstd::arithmetic::div_mod::{lemma_div_is_ordered, lemma_fundamental_div_mod, lemma_mod_bound};
use vstd::arithmetic::power2::{
    lemma_pow2_pos,
    lemma_pow2_strictly_increases,
    lemma_pow2_unfold,
    pow2,
};

verus! {

/// The sign bit of the encoding.
pub const SIGN_BIT: u64 = 0x8000_0000_0000_0000;

/// Every bit but the sign.
pub const MAGNITUDE_MASK: u64 = 0x7FFF_FFFF_FFFF_FFFF;

/// The magnitude that encodes infinity. Every larger magnitude is a NaN.
pub const INFINITY_BITS: u64 = 0x7FF0_0000_0000_0000;

/// Two to the 52nd: the weight of the exponent field's lowest bit.
pub const HIDDEN_BIT: u64 = 0x0010_0000_0000_0000;

/// The encoding of 0.
pub const ZERO_BITS: u64 = 0;

/// The encoding of 1.
pub const ONE_BITS: u64 = 0x3FF0_0000_0000_0000;

/// A double-precision number, by its encoding.
#[derive(Clone, Copy, Debug)]
pub struct Scalar {
    pub bits: u64,
}

impl Scalar {
    /// Whether the sign bit is set.
    pub open spec fn negative(self) -> bool {
        self.bits >= SIGN_BIT
    }

    /// The encoding without its sign bit.
    pub open spec fn magnitude(self) -> nat {
        (self.bits % SIGN_BIT) as nat
    }

    /// The exponent field.
    pub open spec fn exponent(self) -> nat {
        self.magnitude() / (HIDDEN_BIT as nat)
    }

    /// The fraction field.
    pub open spec fn fraction(self) -> nat {
        self.magnitude() % (HIDDEN_BIT as nat)
    }

    /// The size of the number with magnitude `m`, counted in steps of two to
    /// the -1074th, the smallest step between doubles. Every double is a
    /// whole number of such steps: its significand, shifted by its exponent.
    /// A significand has the fraction for its low bits, and above them a
    /// hidden one where the exponent field is not zero. Infinity counts as
    /// the size that the encoding after the largest double would have.
    pub open spec fn size_of(m: nat) -> nat {
        let e = m / (HIDDEN_BIT as nat);
        let f = m % (HIDDEN_BIT as nat);
        if e == 0 {
            f
        } else {
            ((HIDDEN_BIT + f) * pow2((e - 1) as nat)) as nat
        }
    }

    /// The number itself, counted in steps of two to the -1074th.
    /// Meaningless for a NaN.
    pub open spec fn steps(self) -> int {
        if self.negative() {
            -(Self::size_of(self.magnitude()) as int)
        } else {
            Self::size_of(self.magnitude()) as int
        }
    }

    /// Whether the encoding is of no number.
    pub open spec fn nan(self) -> bool {
        self.magnitude() > INFINITY_BITS
    }

    /// An integer that orders the numbers as their values do: the magnitude,
    /// with the sign applied. Both zeros have key 0. Meaningless for a NaN.
    pub open spec fn key(self) -> int {
        if self.negative() {
            -(self.magnitude() as int)
        } else {
            self.magnitude() as int
        }
    }

    /// `self < other` as IEEE 754 has it: false where either is a NaN.
    pub open spec fn less(self, other: Scalar) -> bool {
        !self.nan() && !other.nan() && self.key() < other.key()
    }

    /// `self <= other` as IEEE 754 has it: false where either is a NaN.
    pub open spec fn at_most(self, other: Scalar) -> bool {
        !self.nan() && !other.nan() && self.key() <= other.key()
    }

    /// The encoding with its sign bit flipped.
    pub open spec fn negated(self) -> Scalar {
        Scalar {
            bits: if self.bits >= SIGN_BIT {
                (self.bits - SIGN_BIT) as u64
            } else {
                (self.bits + SIGN_BIT) as u64
            },
        }
    }

    /// The encoding with its sign bit cleared.
    pub open spec fn absolute(self) -> Scalar {
        Scalar { bits: (self.bits % SIGN_BIT) as u64 }
    }

    /// The number with the given encoding.
    pub fn from_bits(bits: u64) -> (r: Scalar)
        ensures
            r.bits == bits,
    {
        Scalar { bits }
    }

    /// The encoding.
    pub fn to_bits(self) -> (r: u64)
        ensures
            r == self.bits,
    {
        self.bits
    }

    /// Zero, with the sign bit clear.
    pub open spec fn spec_zero() -> Scalar {
        Scalar { bits: ZERO_BITS }
    }

    /// One.
    pub open spec fn spec_one() -> Scalar {
        Scalar { bits: ONE_BITS }
    }

    /// Zero, with the sign bit clear.
    #[verifier::when_used_as_spec(spec_zero)]
    pub fn zero() -> (r: Scalar)
        ensures
            r == Self::spec_zero(),
    {
        Scalar { bits: ZERO_BITS }
    }

    /// One.
    #[verifier::when_used_as_spec(spec_one)]
    pub fn one() -> (r: Scalar)
        ensures
            r == Self::spec_one(),
    {
        Scalar { bits: ONE_BITS }
    }

    fn magnitude_bits(self) -> (m: u64)
        ensures
            m == self.magnitude(),
    {
        let b: u64 = self.bits;
        assert(b & 0x7FFF_FFFF_FFFF_FFFF == b % 0x8000_0000_0000_0000) by (bit_vector);
        b & MAGNITUDE_MASK
    }

    /// Whether this is a NaN.
    pub fn is_nan(self) -> (r: bool)
        ensures
            r == self.nan(),
    {
        self.magnitude_bits() > INFINITY_BITS
    }

    /// Whether the sign bit is set. True of negative zero too.
    pub fn is_sign_negative(self) -> (r: bool)
        ensures
            r == self.negative(),
    {
        self.bits >= SIGN_BIT
    }

    /// `self < other`.
    pub fn lt(self, other: Scalar) -> (r: bool)
        ensures
            r == self.less(other),
    {
        if self.is_nan() || other.is_nan() {
            return false;
        }
        let a: u64 = self.magnitude_bits();
        let b: u64 = other.magnitude_bits();
        if self.is_sign_negative() {
            if other.is_sign_negative() {
                a > b
            } else {
                a > 0 || b > 0
            }
        } else {
            if other.is_sign_negative() {
                false
            } else {
                a < b
            }
        }
    }

    /// `self <= other`.
    pub fn le(self, other: Scalar) -> (r: bool)
        ensures
            r == self.at_most(other),
    {
        if self.is_nan() || other.is_nan() {
            return false;
        }
        let a: u64 = self.magnitude_bits();
        let b: u64 = other.magnitude_bits();
        if self.is_sign_negative() {
            if other.is_sign_negative() {
                a >= b
            } else {
                true
            }
        } else {
            if other.is_sign_negative() {
                a == 0 && b == 0
            } else {
                a <= b
            }
        }
    }

    /// `self > other`.
    pub fn gt(self, other: Scalar) -> (r: bool)
        ensures
            r == other.less(self),
    {
        other.lt(self)
    }

    /// `-self`: the same magnitude under the other sign. A NaN stays a NaN.
    pub fn neg(self) -> (r: Scalar)
        ensures
            r == self.negated(),
            r.magnitude() == self.magnitude(),
            r.negative() == !self.negative(),
    {
        let b: u64 = self.bits;
        assert(b ^ 0x8000_0000_0000_0000 == if b >= 0x8000_0000_0000_0000 {
            (b - 0x8000_0000_0000_0000) as u64
        } else {
            (b + 0x8000_0000_0000_0000) as u64
        }) by (bit_vector);
        Scalar { bits: b ^ SIGN_BIT }
    }

    /// `|self|`: the same magnitude with the sign bit clear.
    pub fn abs(self) -> (r: Scalar)
        ensures
            r == self.absolute(),
            r.magnitude() == self.magnitude(),
            !r.negative(),
    {
        Scalar { bits: self.magnitude_bits() }
    }
}

/// A larger magnitude encodes a larger size.
pub proof fn lemma_size_increases(m1: nat, m2: nat)
    requires
        m1 < m2,
    ensures
        Scalar::size_of(m1) < Scalar::size_of(m2),
{
    let h = HIDDEN_BIT as int;
    let e1 = (m1 as int) / h;
    let f1 = (m1 as int) % h;
    let e2 = (m2 as int) / h;
    let f2 = (m2 as int) % h;
    lemma_fundamental_div_mod(m1 as int, h);
    lemma_fundamental_div_mod(m2 as int, h);
    lemma_mod_bound(m1 as int, h);
    lemma_mod_bound(m2 as int, h);
    lemma_div_is_ordered(m1 as int, m2 as int, h);
    assert(e1 >= 0 && e2 >= 0) by (nonlinear_arith)
        requires
            m1 == h * e1 + f1,
            m2 == h * e2 + f2,
            0 <= f1 < h,
            0 <= f2 < h,
            m1 >= 0,
            m2 >= 0,
    ;
    if e1 == e2 {
        assert(f1 < f2);
        if e1 > 0 {
            let p = pow2((e1 - 1) as nat) as int;
            lemma_pow2_pos((e1 - 1) as nat);
            assert((h + f1) * p < (h + f2) * p) by (nonlinear_arith)
                requires
                    f1 < f2,
                    p > 0,
            ;
        }
    } else {
        let upper = pow2((e2 - 1) as nat) as int;
        lemma_pow2_pos((e2 - 1) as nat);
        assert(h * upper <= (h + f2) * upper) by (nonlinear_arith)
            requires
                f2 >= 0,
                upper > 0,
        ;
        if e1 == 0 {
            assert(h <= h * upper) by (nonlinear_arith)
                requires
                    h > 0,
                    upper >= 1,
            ;
        } else {
            let lower = pow2((e1 - 1) as nat) as int;
            lemma_pow2_pos((e1 - 1) as nat);
            lemma_pow2_unfold(e1 as nat);
            if e1 < e2 - 1 {
                lemma_pow2_strictly_increases(e1 as nat, (e2 - 1) as nat);
            }
            assert((h + f1) * lower < h * upper) by (nonlinear_arith)
                requires
                    f1 < h,
                    lower > 0,
                    2 * lower <= upper,
                    h > 0,
            ;
        }
    }
}

/// The keys order the numbers as their values do, and two numbers have one
/// key where they have one value: so `less` and `at_most` compare values.
pub proof fn lemma_key_orders_values(a: Scalar, b: Scalar)
    ensures
        a.key() < b.key() <==> a.steps() < b.steps(),
        a.key() == b.key() <==> a.steps() == b.steps(),
{
    let m = a.magnitude();
    let n = b.magnitude();
    if m < n {
        lemma_size_increases(m, n);
    }
    if n < m {
        lemma_size_increases(n, m);
    }
    if 0 < m {
        lemma_size_increases(0, m);
    }
    if 0 < n {
        lemma_size_increases(0, n);
    }
    assert(Scalar::size_of(0) == 0);
}

} // verus!
