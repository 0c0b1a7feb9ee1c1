//! Floating-point numbers carried as their IEEE 754 bit patterns.
//!
//! The library stores such numbers, hands them on, changes their sign and compares them; it does
//! no other arithmetic on them.

use vstd::prelude::*;

verus! {

/// The bits of a double-precision number.
#[derive(Debug, Clone, Copy, PartialEq, Eq, Structural)]
pub struct Double {
    pub bits: u64,
}

/// The bits of a single-precision number.
#[derive(Debug, Clone, Copy, PartialEq, Eq, Structural)]
pub struct Single {
    pub bits: u32,
}

/// The number 0.
pub const DOUBLE_ZERO: u64 = 0;

/// The number 1.
pub const DOUBLE_ONE: u64 = 0x3ff0_0000_0000_0000;

/// The number 1.5.
pub const DOUBLE_ONE_AND_A_HALF: u64 = 0x3ff8_0000_0000_0000;

/// The number 15.
pub const DOUBLE_FIFTEEN: u64 = 0x402e_0000_0000_0000;

/// The number 0.
pub const SINGLE_ZERO: u32 = 0;

/// The number 1.
pub const SINGLE_ONE: u32 = 0x3f80_0000;

/// The number -1.
pub const SINGLE_MINUS_ONE: u32 = 0xbf80_0000;

/// The value of the highest bit, which holds the sign.
pub const SIGN_BIT: u32 = 0x8000_0000;

/// The pattern of positive infinity; greater magnitudes are no numbers.
pub const SINGLE_INFINITY: u32 = 0x7f80_0000;

impl Single {
    /// Whether the sign bit is set.
    pub open spec fn negative(self) -> bool {
        self.bits >= SIGN_BIT
    }

    /// The bits below the sign.
    pub open spec fn magnitude(self) -> int {
        if self.negative() {
            self.bits - SIGN_BIT
        } else {
            self.bits as int
        }
    }

    /// Whether the pattern stands for no number (NaN).
    pub open spec fn is_nan(self) -> bool {
        self.magnitude() > SINGLE_INFINITY
    }

    /// A place on the number line: patterns of numbers are ordered as their ranks are, and both
    /// zeros have the same.
    pub open spec fn rank(self) -> int {
        if self.negative() {
            -self.magnitude()
        } else {
            self.magnitude()
        }
    }

    /// The IEEE comparison `self < other`, false wherever a NaN takes part.
    pub open spec fn below(self, other: Single) -> bool {
        !self.is_nan() && !other.is_nan() && self.rank() < other.rank()
    }

    /// The same bits under the other sign.
    pub open spec fn flipped(self) -> Single {
        Single {
            bits: if self.negative() {
                (self.bits - SIGN_BIT) as u32
            } else {
                (self.bits + SIGN_BIT) as u32
            },
        }
    }

    /// The negated number: only the sign bit changes.
    pub fn negate(self) -> (r: Single)
        ensures
            r == self.flipped(),
            r.negative() == !self.negative(),
            r.magnitude() == self.magnitude(),
    {
        if self.bits >= SIGN_BIT {
            Single { bits: self.bits - SIGN_BIT }
        } else {
            Single { bits: self.bits + SIGN_BIT }
        }
    }

    /// The IEEE comparison `self < other`.
    pub fn less_than(self, other: Single) -> (r: bool)
        ensures
            r == self.below(other),
    {
        let a: u32 = if self.bits >= SIGN_BIT {
            self.bits - SIGN_BIT
        } else {
            self.bits
        };
        let b: u32 = if other.bits >= SIGN_BIT {
            other.bits - SIGN_BIT
        } else {
            other.bits
        };
        if a > SINGLE_INFINITY || b > SINGLE_INFINITY {
            return false;
        }
        if self.bits >= SIGN_BIT {
            if other.bits >= SIGN_BIT {
                b < a
            } else {
                a > 0 || b > 0
            }
        } else if other.bits >= SIGN_BIT {
            false
        } else {
            a < b
        }
    }
}

/// A quaternion of single-precision numbers.
#[derive(Debug, Clone, Copy, PartialEq, Eq, Structural)]
pub struct Quaternion {
    pub x: Single,
    pub y: Single,
    pub z: Single,
    pub w: Single,
}

/// Negating twice gives the number back, bit for bit.
pub proof fn negation_is_involutive(x: Single)
    ensures
        x.flipped().flipped() == x,
{
}

/// `a` and `b` differ in the sign bit and in no other.
pub open spec fn opposite(a: Single, b: Single) -> bool {
    if b.bits < 0x8000_0000 {
        a.bits == b.bits + 0x8000_0000
    } else {
        a.bits == b.bits - 0x8000_0000
    }
}

/// Negation adds the sign bit to a number without it and takes it from a number with it; no other
/// bit changes.
pub proof fn negation_inverts_the_sign_bit(x: Single)
    ensures
        x.bits < 0x8000_0000 ==> x.flipped().bits == x.bits + 0x8000_0000,
        x.bits >= 0x8000_0000 ==> x.flipped().bits == x.bits - 0x8000_0000,
        x.flipped().bits % 0x8000_0000 == x.bits % 0x8000_0000,
{
}

/// Numbers without a sign are ordered as their bits are, numbers with one the other way round,
/// and those below zero come before the others; the two zeros are equal, and what is no number
/// is neither below nor above anything.
pub proof fn comparison_of_bits(a: Single, b: Single)
    ensures
        a.bits < 0x8000_0000 && b.bits < 0x8000_0000 && a.bits <= 0x7f80_0000 && b.bits
            <= 0x7f80_0000 ==> (a.below(b) <==> a.bits < b.bits),
        0x8000_0000 <= a.bits <= 0xff80_0000 && 0x8000_0000 <= b.bits <= 0xff80_0000 ==> (a.below(b)
            <==> b.bits < a.bits),
        0x8000_0000 <= a.bits <= 0xff80_0000 && b.bits <= 0x7f80_0000 ==> (a.below(b) <==> !(a.bits
            == 0x8000_0000 && b.bits == 0)),
        a.bits <= 0x7f80_0000 && 0x8000_0000 <= b.bits ==> !a.below(b),
        0x7f80_0000 < a.bits < 0x8000_0000 || a.bits > 0xff80_0000 ==> !a.below(b) && !b.below(a),
{
}

/// The comparison is a strict order, and negation turns it round.
pub proof fn comparison_is_an_order(a: Single, b: Single, c: Single)
    ensures
        !(a.below(b) && b.below(a)),
        a.below(b) && b.below(c) ==> a.below(c),
        a.below(b) <==> b.flipped().below(a.flipped()),
{
}

} // verus!
