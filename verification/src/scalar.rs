use core::cmp::Ordering;
use vstd::prelude::*;
use vstd::std_specs::cmp::PartialEqSpecImpl;
use vstd::std_specs::cmp::PartialOrdSpecImpl;

verus! {

/// A single-precision IEEE-754 value, held by its 32-bit pattern: one sign
/// bit, eight exponent bits, twenty-three fraction bits.
#[derive(Clone, Copy, Debug)]
pub struct Scalar {
    pub bits: u32,
}

/// The bit pattern of zero.
pub const ZERO_BITS: u32 = 0;

/// The bit pattern of one.
pub const ONE_BITS: u32 = 0x3f80_0000;

/// The bit pattern of positive infinity.
pub const INFINITY_BITS: u32 = 0x7f80_0000;

/// The bit pattern of negative infinity.
pub const NEG_INFINITY_BITS: u32 = 0xff80_0000;

/// The bit pattern of the largest finite value.
pub const MAX_BITS: u32 = 0x7f7f_ffff;

/// The bit pattern of one thousandth, rounded to the nearest value.
pub const THOUSANDTH_BITS: u32 = 0x3a83_126f;

/// The bit pattern of one millionth, rounded to the nearest value.
pub const MILLIONTH_BITS: u32 = 0x3586_37bd;

/// The bit pattern of one part in a hundred million, rounded to the nearest
/// value.
pub const HUNDRED_MILLIONTH_BITS: u32 = 0x322b_cc77;

impl Scalar {
    /// The pattern without its sign bit.
    pub open spec fn magnitude(self) -> int {
        (self.bits % 0x8000_0000) as int
    }

    /// Whether the sign bit is set.
    pub open spec fn negative(self) -> bool {
        self.bits >= 0x8000_0000
    }

    /// Whether the pattern is a NaN: all exponent bits set and a fraction
    /// that is not zero.
    pub open spec fn nan(self) -> bool {
        self.magnitude() > 0x7f80_0000
    }

    /// The place of a number on the number line, as an integer: equal numbers
    /// have equal ranks (both zeros have rank 0) and a smaller number has a
    /// smaller rank. Meaningless for a NaN.
    pub open spec fn rank(self) -> int {
        if self.negative() {
            -self.magnitude()
        } else {
            self.magnitude()
        }
    }

    /// `self < other` as the hardware decides it: false when either is a NaN.
    pub open spec fn less(self, other: Scalar) -> bool {
        !self.nan() && !other.nan() && self.rank() < other.rank()
    }

    /// `self == other` as the hardware decides it: false when either is a
    /// NaN, true for the two zeros.
    pub open spec fn same(self, other: Scalar) -> bool {
        !self.nan() && !other.nan() && self.rank() == other.rank()
    }

    /// The value with its sign bit flipped.
    pub open spec fn negated(self) -> Scalar {
        if self.negative() {
            Scalar { bits: (self.bits - 0x8000_0000) as u32 }
        } else {
            Scalar { bits: (self.bits + 0x8000_0000) as u32 }
        }
    }

    /// `self > other` as the hardware decides it.
    pub open spec fn greater(self, other: Scalar) -> bool {
        other.less(self)
    }

    /// `self <= other` as the hardware decides it.
    pub open spec fn at_most(self, other: Scalar) -> bool {
        !self.nan() && !other.nan() && self.rank() <= other.rank()
    }

    /// The smaller of two values as `partial_min_max::min` picks it: the
    /// first where it is less than the second, else the second.
    pub open spec fn min_of(self, other: Scalar) -> Scalar {
        if self.less(other) {
            self
        } else {
            other
        }
    }

    /// The larger of two values as `partial_min_max::max` picks it: the
    /// first where it is greater than the second, else the second.
    pub open spec fn max_of(self, other: Scalar) -> Scalar {
        if self.greater(other) {
            self
        } else {
            other
        }
    }

    /// `x` held between `min` and `max`: `min` where `x < min`, else `max`
    /// where `x > max`, else `x` (so a NaN comes back as it went in).
    pub open spec fn clamped(self, min: Scalar, max: Scalar) -> Scalar {
        if self.less(min) {
            min
        } else if self.greater(max) {
            max
        } else {
            self
        }
    }

    pub fn new(bits: u32) -> (r: Scalar)
        ensures
            r.bits == bits,
    {
        Scalar { bits }
    }

    pub fn zero() -> (r: Scalar)
        ensures
            r.bits == ZERO_BITS,
    {
        Scalar { bits: ZERO_BITS }
    }

    pub fn one() -> (r: Scalar)
        ensures
            r.bits == ONE_BITS,
    {
        Scalar { bits: ONE_BITS }
    }

    pub fn infinity() -> (r: Scalar)
        ensures
            r.bits == INFINITY_BITS,
    {
        Scalar { bits: INFINITY_BITS }
    }

    pub fn neg_infinity() -> (r: Scalar)
        ensures
            r.bits == NEG_INFINITY_BITS,
    {
        Scalar { bits: NEG_INFINITY_BITS }
    }

    pub fn max_value() -> (r: Scalar)
        ensures
            r.bits == MAX_BITS,
    {
        Scalar { bits: MAX_BITS }
    }

    pub fn is_nan(self) -> (r: bool)
        ensures
            r == self.nan(),
    {
        self.bits % 0x8000_0000 > 0x7f80_0000
    }

    /// The rank as a machine integer.
    pub fn position(self) -> (r: i64)
        ensures
            r == self.rank(),
    {
        if self.bits >= 0x8000_0000 {
            0 - ((self.bits - 0x8000_0000) as i64)
        } else {
            self.bits as i64
        }
    }

    /// The value with its sign flipped. Exact for every pattern, NaNs
    /// included.
    pub fn neg(self) -> (r: Scalar)
        ensures
            r == self.negated(),
    {
        if self.bits >= 0x8000_0000 {
            Scalar { bits: self.bits - 0x8000_0000 }
        } else {
            Scalar { bits: self.bits + 0x8000_0000 }
        }
    }

    /// The value with its sign cleared.
    pub fn abs(self) -> (r: Scalar)
        ensures
            r.bits == self.magnitude(),
    {
        Scalar { bits: self.bits % 0x8000_0000 }
    }
}

impl Default for Scalar {
    fn default() -> (r: Scalar)
        ensures
            r.bits == ZERO_BITS,
    {
        Scalar { bits: ZERO_BITS }
    }
}

impl PartialEq for Scalar {
    fn eq(&self, other: &Scalar) -> (r: bool) {
        !self.is_nan() && !other.is_nan() && self.position() == other.position()
    }
}

impl PartialEqSpecImpl for Scalar {
    open spec fn obeys_eq_spec() -> bool {
        true
    }

    open spec fn eq_spec(&self, other: &Scalar) -> bool {
        self.same(*other)
    }
}

impl PartialOrd for Scalar {
    fn partial_cmp(&self, other: &Scalar) -> (r: Option<Ordering>) {
        if self.is_nan() || other.is_nan() {
            None
        } else {
            let a: i64 = self.position();
            let b: i64 = other.position();
            if a < b {
                Some(Ordering::Less)
            } else if a > b {
                Some(Ordering::Greater)
            } else {
                Some(Ordering::Equal)
            }
        }
    }
}

impl PartialOrdSpecImpl for Scalar {
    open spec fn obeys_partial_cmp_spec() -> bool {
        true
    }

    open spec fn partial_cmp_spec(&self, other: &Scalar) -> Option<Ordering> {
        if self.nan() || other.nan() {
            None
        } else if self.rank() < other.rank() {
            Some(Ordering::Less)
        } else if self.rank() > other.rank() {
            Some(Ordering::Greater)
        } else {
            Some(Ordering::Equal)
        }
    }
}

/// `partial_min_max::min`, which returns its first argument where that is
/// less than the second by `PartialOrd`, and the second otherwise.
#[verifier::external_body]
pub(crate) fn fmin(a: Scalar, b: Scalar) -> (r: Scalar)
    ensures
        r == a.min_of(b),
{
    partial_min_max::min(a, b)
}

/// `partial_min_max::max`, which returns its first argument where that is
/// greater than the second by `PartialOrd`, and the second otherwise.
#[verifier::external_body]
pub(crate) fn fmax(a: Scalar, b: Scalar) -> (r: Scalar)
    ensures
        r == a.max_of(b),
{
    partial_min_max::max(a, b)
}

/// Holds `x` between `min` and `max`.
pub fn clamp(x: Scalar, min: Scalar, max: Scalar) -> (r: Scalar)
    ensures
        r == x.clamped(min, max),
{
    if x < min {
        return min;
    }
    if x > max {
        return max;
    }
    x
}

} // verus!
