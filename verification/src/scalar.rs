//! IEEE 754 binary64 values as bit patterns, with the comparisons and
//! classifications that the topology logic needs.

use vstd::prelude::*;
use vstd::std_specs::cmp::PartialEqSpecImpl;

verus! {

/// Bit pattern of the sign bit alone (negative zero).
pub const SIGN_BIT: u64 = 0x8000_0000_0000_0000;

/// Magnitude bits of an infinity: exponent all ones, fraction zero.
pub const INFINITY_MAGNITUDE: u64 = 0x7ff0_0000_0000_0000;

/// Magnitude bits of the smallest normal value: exponent one, fraction zero.
pub const MIN_NORMAL_MAGNITUDE: u64 = 0x0010_0000_0000_0000;

/// A binary64 value, held as its 64-bit pattern: one sign bit, eleven
/// exponent bits, fifty-two fraction bits.
#[derive(Clone, Copy, Debug)]
pub struct Scalar {
    pub bits: u64,
}

/// `==` is numeric equality, as on the values themselves: a NaN equals
/// nothing, and the two zeros are equal.
impl PartialEq for Scalar {
    fn eq(&self, other: &Scalar) -> (r: bool) {
        self.num_eq(*other)
    }
}

impl PartialEqSpecImpl for Scalar {
    open spec fn obeys_eq_spec() -> bool {
        true
    }

    open spec fn eq_spec(&self, other: &Scalar) -> bool {
        self.equals(*other)
    }
}

impl Scalar {
    /// The pattern with the sign bit cleared.
    pub open spec fn magnitude(self) -> int {
        if self.bits >= SIGN_BIT {
            self.bits - SIGN_BIT
        } else {
            self.bits as int
        }
    }

    /// The sign bit is set (this holds of negative zero and of some NaNs too).
    pub open spec fn sign_negative(self) -> bool {
        self.bits >= SIGN_BIT
    }

    /// Not a number: exponent all ones and a nonzero fraction.
    pub open spec fn nan(self) -> bool {
        self.magnitude() > INFINITY_MAGNITUDE
    }

    /// Positive or negative zero.
    pub open spec fn zero(self) -> bool {
        self.magnitude() == 0
    }

    /// Neither zero, subnormal, infinite nor NaN.
    pub open spec fn normal(self) -> bool {
        MIN_NORMAL_MAGNITUDE <= self.magnitude() < INFINITY_MAGNITUDE
    }

    /// Position of a non-NaN value on the number line: values compare as
    /// their ordinals do, and both zeros share ordinal 0.
    pub open spec fn ordinal(self) -> int {
        if self.sign_negative() {
            -self.magnitude()
        } else {
            self.magnitude()
        }
    }

    /// Numeric equality: false as soon as one side is NaN, true of the two zeros.
    pub open spec fn equals(self, other: Scalar) -> bool {
        !self.nan() && !other.nan() && self.ordinal() == other.ordinal()
    }

    /// Numeric strict order: false as soon as one side is NaN.
    pub open spec fn below(self, other: Scalar) -> bool {
        !self.nan() && !other.nan() && self.ordinal() < other.ordinal()
    }

    /// The value with its sign bit cleared.
    pub open spec fn absolute(self) -> Scalar {
        Scalar { bits: self.magnitude() as u64 }
    }

    /// Positive zero.
    pub open spec fn zero_value() -> Scalar {
        Scalar { bits: 0 }
    }

    /// The larger of two values, where a NaN counts as missing: `other` where
    /// `self` is NaN or below it, and `self` otherwise.
    pub open spec fn at_least(self, other: Scalar) -> Scalar {
        if self.nan() || self.below(other) {
            other
        } else {
            self
        }
    }

    /// The smaller of two values, where a NaN counts as missing: `other` where
    /// `self` is NaN or above it, and `self` otherwise.
    pub open spec fn at_most(self, other: Scalar) -> Scalar {
        if self.nan() || other.below(self) {
            other
        } else {
            self
        }
    }

    /// Positive infinity.
    pub open spec fn infinity() -> Scalar {
        Scalar { bits: INFINITY_MAGNITUDE }
    }

    /// The smallest of the values, NaNs left aside, found as a running
    /// minimum that starts at positive infinity.
    pub open spec fn smallest_of(values: Seq<Scalar>) -> Scalar
        decreases values.len(),
    {
        if values.len() == 0 {
            Scalar::infinity()
        } else {
            Scalar::smallest_of(values.drop_last()).at_most(values.last())
        }
    }

    pub fn from_bits(bits: u64) -> (r: Scalar)
        ensures
            r.bits == bits,
    {
        Scalar { bits }
    }

    pub fn to_bits(self) -> (r: u64)
        ensures
            r == self.bits,
    {
        self.bits
    }

    fn magnitude_bits(self) -> (r: u64)
        ensures
            r == self.magnitude(),
    {
        if self.bits >= SIGN_BIT {
            self.bits - SIGN_BIT
        } else {
            self.bits
        }
    }

    pub fn is_nan(self) -> (r: bool)
        ensures
            r == self.nan(),
    {
        self.magnitude_bits() > INFINITY_MAGNITUDE
    }

    pub fn is_normal(self) -> (r: bool)
        ensures
            r == self.normal(),
    {
        let m: u64 = self.magnitude_bits();
        MIN_NORMAL_MAGNITUDE <= m && m < INFINITY_MAGNITUDE
    }

    pub fn abs(self) -> (r: Scalar)
        ensures
            r == self.absolute(),
            !r.sign_negative(),
            r.nan() == self.nan(),
    {
        Scalar { bits: self.magnitude_bits() }
    }

    pub fn num_eq(self, other: Scalar) -> (r: bool)
        ensures
            r == self.equals(other),
    {
        if self.is_nan() || other.is_nan() {
            return false;
        }
        let a: u64 = self.magnitude_bits();
        let b: u64 = other.magnitude_bits();
        if a == 0 && b == 0 {
            true
        } else {
            self.bits == other.bits
        }
    }

    /// Whether the value is below zero.
    pub fn is_negative(self) -> (r: bool)
        ensures
            r == self.below(Scalar::zero_value()),
    {
        self.num_lt(Scalar { bits: 0 })
    }

    /// The larger of the two; see `at_least`.
    pub fn max(self, other: Scalar) -> (r: Scalar)
        ensures
            r == self.at_least(other),
            !r.below(other),
            !r.below(self),
    {
        if self.is_nan() || self.num_lt(other) {
            other
        } else {
            self
        }
    }

    /// The smaller of the two; see `at_most`.
    pub fn min(self, other: Scalar) -> (r: Scalar)
        ensures
            r == self.at_most(other),
            !other.below(r),
            !self.below(r),
    {
        if self.is_nan() || other.num_lt(self) {
            other
        } else {
            self
        }
    }

    /// The smallest of `values`; positive infinity if there is none.
    pub fn smallest(values: &Vec<Scalar>) -> (r: Scalar)
        ensures
            r == Scalar::smallest_of(values@),
            !r.nan(),
            forall|k: int| 0 <= k < values@.len() ==> !(#[trigger] values@[k]).below(r),
            r == Scalar::infinity() || exists|k: int| 0 <= k < values@.len() && values@[k] == r,
    {
        let n = values.len();
        let mut least = Scalar { bits: INFINITY_MAGNITUDE };
        let mut k: usize = 0;
        while k < n
            invariant
                n == values@.len(),
                k <= n,
                least == Scalar::smallest_of(values@.take(k as int)),
                !least.nan(),
                forall|m: int| 0 <= m < k ==> !(#[trigger] values@[m]).below(least),
                least == Scalar::infinity() || exists|m: int| 0 <= m < k && values@[m] == least,
            decreases n - k,
        {
            assert(values@.take(k + 1).drop_last() =~= values@.take(k as int));
            least = least.min(values[k]);
            k += 1;
        }
        assert(values@.take(n as int) =~= values@);
        least
    }

    pub fn num_lt(self, other: Scalar) -> (r: bool)
        ensures
            r == self.below(other),
    {
        if self.is_nan() || other.is_nan() {
            return false;
        }
        let a: u64 = self.magnitude_bits();
        let b: u64 = other.magnitude_bits();
        if self.bits >= SIGN_BIT {
            if other.bits >= SIGN_BIT {
                b < a
            } else {
                a != 0 || b != 0
            }
        } else {
            if other.bits >= SIGN_BIT {
                false
            } else {
                a < b
            }
        }
    }
}

} // verus!
