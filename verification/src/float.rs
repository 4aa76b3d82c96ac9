//! Double-precision settings, held by their binary interchange form.
//!
//! A setting is carried through the library as the 64 bits of the number. Its sign, its
//! class and its place in the order of numbers can be read off those bits.
use vstd::prelude::*;

verus! {

/// The bit that marks a negative number.
pub const SIGN: u64 = 0x8000_0000_0000_0000;

/// The magnitude bits of an infinity; larger magnitudes are no numbers.
pub const INFINITE: u64 = 0x7ff0_0000_0000_0000;

/// The bits of one.
pub const ONE: u64 = 0x3ff0_0000_0000_0000;

/// A double-precision number given by its bits.
#[derive(Debug, Clone, Copy, PartialEq, Eq, Structural)]
pub struct Binary64 {
    /// Sign, exponent and fraction, from the most significant bit down.
    pub bits: u64,
}

impl Binary64 {
    /// The bits without the sign.
    pub open spec fn magnitude(self) -> int {
        if self.bits >= SIGN {
            self.bits - SIGN
        } else {
            self.bits as int
        }
    }

    /// The number's place in the order of numbers: both zeros stand at 0, and of two numbers
    /// the larger stands further right.
    pub open spec fn place(self) -> int {
        if self.bits >= SIGN {
            -self.magnitude()
        } else {
            self.magnitude()
        }
    }

    /// The bits encode a number that is neither infinite nor undefined.
    pub open spec fn finite(self) -> bool {
        self.magnitude() < INFINITE
    }

    /// The bits encode a number, possibly an infinity.
    pub open spec fn defined(self) -> bool {
        self.magnitude() <= INFINITE
    }

    /// `self` is at most `other`; never so when one of them is undefined.
    pub open spec fn at_most(self, other: Binary64) -> bool {
        self.defined() && other.defined() && self.place() <= other.place()
    }

    /// `self` is less than `other`; never so when one of them is undefined.
    pub open spec fn less(self, other: Binary64) -> bool {
        self.defined() && other.defined() && self.place() < other.place()
    }

    /// The number with the given bits.
    pub fn from_bits(bits: u64) -> (r: Self)
        ensures
            r.bits == bits,
    {
        Binary64 { bits }
    }

    /// Zero.
    pub fn zero() -> (r: Self)
        ensures
            r.bits == 0,
    {
        Binary64 { bits: 0 }
    }

    /// One.
    pub fn one() -> (r: Self)
        ensures
            r.bits == ONE,
    {
        Binary64 { bits: ONE }
    }

    fn ordinal(self) -> (r: i64)
        ensures
            r == self.place(),
    {
        if self.bits >= SIGN {
            -((self.bits - SIGN) as i64)
        } else {
            self.bits as i64
        }
    }

    fn unsigned(self) -> (r: u64)
        ensures
            r == self.magnitude(),
    {
        if self.bits >= SIGN {
            self.bits - SIGN
        } else {
            self.bits
        }
    }

    /// Whether the number is neither infinite nor undefined.
    pub fn is_finite(self) -> (r: bool)
        ensures
            r == self.finite(),
    {
        self.unsigned() < INFINITE
    }

    /// Whether the number is at most `other`.
    pub fn is_at_most(self, other: Binary64) -> (r: bool)
        ensures
            r == self.at_most(other),
    {
        self.unsigned() <= INFINITE && other.unsigned() <= INFINITE && self.ordinal() <= other.ordinal()
    }

    /// Whether the number is less than `other`.
    pub fn is_less(self, other: Binary64) -> (r: bool)
        ensures
            r == self.less(other),
    {
        self.unsigned() <= INFINITE && other.unsigned() <= INFINITE && self.ordinal() < other.ordinal()
    }
}

/// A number in the closed unit interval.
pub open spec fn is_fraction(value: Binary64) -> bool {
    value.finite() && 0 <= value.place() <= ONE
}

/// Whether a number lies in the closed unit interval.
pub fn in_unit_interval(value: Binary64) -> (r: bool)
    ensures
        r == is_fraction(value),
{
    value.is_finite() && value.ordinal() >= 0 && value.ordinal() <= ONE as i64
}

} // verus!
