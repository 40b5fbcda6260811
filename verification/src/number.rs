//! Double-precision numbers, carried as their IEEE 754 bit patterns.
//!
//! The library stores such numbers, hands them on and orders them. Sums,
//! products and quotients are left to its callers.

use vstd::prelude::*;

verus! {

/// A double-precision number, as its 64-bit pattern. Equality of two values is
/// equality of the patterns; the numeric order is given by the methods below.
#[derive(Debug, Clone, Copy, PartialEq, Eq, Structural)]
pub struct Real {
    pub bits: u64,
}

/// The sign bit.
pub const SIGN_BIT: u64 = 0x8000_0000_0000_0000;

/// The pattern of positive infinity; a larger magnitude is not a number.
pub const INFINITY_BITS: u64 = 0x7ff0_0000_0000_0000;

/// The pattern of one.
pub const ONE_BITS: u64 = 0x3ff0_0000_0000_0000;

/// The pattern of one hundred.
pub const HUNDRED_BITS: u64 = 0x4059_0000_0000_0000;

/// Zero.
pub open spec fn zero() -> Real {
    Real { bits: 0 }
}

/// One.
pub open spec fn one() -> Real {
    Real { bits: ONE_BITS }
}

/// One hundred.
pub open spec fn hundred() -> Real {
    Real { bits: HUNDRED_BITS }
}

impl Real {
    /// Whether the sign bit is set.
    pub open spec fn negative(self) -> bool {
        self.bits >= SIGN_BIT
    }

    /// The pattern without its sign bit. Patterns of non-negative numbers are
    /// ordered as the numbers are.
    pub open spec fn magnitude(self) -> int {
        if self.negative() {
            self.bits - SIGN_BIT
        } else {
            self.bits as int
        }
    }

    /// Whether the pattern is that of no number.
    pub open spec fn is_nan(self) -> bool {
        self.magnitude() > INFINITY_BITS
    }

    /// Whether the pattern is that of an infinity.
    pub open spec fn is_infinite(self) -> bool {
        self.magnitude() == INFINITY_BITS
    }

    /// The position of the number in the numeric order; both zeros have one position.
    pub open spec fn rank(self) -> int {
        if self.negative() {
            -self.magnitude()
        } else {
            self.magnitude()
        }
    }

    /// The numeric `self < other`: false where either is no number.
    pub open spec fn spec_lt(self, other: Real) -> bool {
        !self.is_nan() && !other.is_nan() && self.rank() < other.rank()
    }

    /// The numeric `self <= other`: false where either is no number.
    pub open spec fn spec_le(self, other: Real) -> bool {
        !self.is_nan() && !other.is_nan() && self.rank() <= other.rank()
    }

    /// The number whose pattern is `bits`.
    pub fn from_bits(bits: u64) -> (r: Real)
        ensures
            r.bits == bits,
    {
        Real { bits }
    }

    /// Whether the value is no number.
    pub fn nan(self) -> (r: bool)
        ensures
            r == self.is_nan(),
    {
        if self.bits >= SIGN_BIT {
            self.bits - SIGN_BIT > INFINITY_BITS
        } else {
            self.bits > INFINITY_BITS
        }
    }

    /// Whether the value is an infinity.
    pub fn infinite(self) -> (r: bool)
        ensures
            r == self.is_infinite(),
    {
        if self.bits >= SIGN_BIT {
            self.bits - SIGN_BIT == INFINITY_BITS
        } else {
            self.bits == INFINITY_BITS
        }
    }

    /// The numeric `self <= other`.
    pub fn le(self, other: Real) -> (r: bool)
        ensures
            r == self.spec_le(other),
    {
        if self.nan() || other.nan() {
            return false;
        }
        if self.bits >= SIGN_BIT {
            if other.bits >= SIGN_BIT {
                self.bits >= other.bits
            } else {
                true
            }
        } else if other.bits >= SIGN_BIT {
            self.bits == 0 && other.bits == SIGN_BIT
        } else {
            self.bits <= other.bits
        }
    }

    /// The numeric `self < other`.
    pub fn lt(self, other: Real) -> (r: bool)
        ensures
            r == self.spec_lt(other),
    {
        self.le(other) && !other.le(self)
    }

    /// Whether the number is above zero.
    pub fn positive(self) -> (r: bool)
        ensures
            r == zero().spec_lt(self),
    {
        Real { bits: 0 }.lt(self)
    }
}

/// Below or at is a total order on numbers: of two of them one is at or below
/// the other, and it is transitive.
pub proof fn law_order_is_total(a: Real, b: Real, c: Real)
    requires
        !a.is_nan(),
        !b.is_nan(),
        !c.is_nan(),
    ensures
        a.spec_le(a),
        a.spec_le(b) || b.spec_le(a),
        a.spec_lt(b) <==> !b.spec_le(a),
        a.spec_le(b) && b.spec_le(c) ==> a.spec_le(c),
{
}

/// The order of numbers is that of their patterns: as they stand where neither has the sign bit,
/// reversed where both have it, and with it before without it, both zeros being equal. Patterns
/// past the infinities are no numbers and are not ordered.
pub proof fn law_order_of_patterns(a: Real, b: Real)
    ensures
        a.bits <= 0x7ff0_0000_0000_0000 && b.bits <= 0x7ff0_0000_0000_0000 ==> (a.spec_lt(b) <==> a.bits
            < b.bits),
        0x8000_0000_0000_0000 <= a.bits <= 0xfff0_0000_0000_0000 && 0x8000_0000_0000_0000 <= b.bits
            <= 0xfff0_0000_0000_0000 ==> (a.spec_lt(b) <==> a.bits > b.bits),
        0x8000_0000_0000_0000 < a.bits <= 0xfff0_0000_0000_0000 && b.bits <= 0x7ff0_0000_0000_0000
            ==> a.spec_lt(b),
        a.bits == 0 && b.bits == 0x8000_0000_0000_0000 ==> a.spec_le(b) && b.spec_le(a),
        a.is_nan() || b.is_nan() ==> !a.spec_lt(b) && !a.spec_le(b),
        !a.is_nan() && !b.is_nan() ==> (a.spec_le(b) <==> !b.spec_lt(a)),
        a.is_nan() <==> 0x7ff0_0000_0000_0000 < a.bits < 0x8000_0000_0000_0000 || a.bits
            > 0xfff0_0000_0000_0000,
        a.is_infinite() <==> a.bits == 0x7ff0_0000_0000_0000 || a.bits == 0xfff0_0000_0000_0000,
        zero().bits == 0 && one().bits == 0x3ff0_0000_0000_0000 && hundred().bits
            == 0x4059_0000_0000_0000,
{
}

} // verus!
