//! Floating-point values as bit patterns, with the comparisons that decisions need.
//!
//! Arithmetic on measurements is done by the application; the library receives the
//! results as IEEE 754 bit patterns and compares them by integer arithmetic.
use vstd::prelude::*;

verus! {

/// An IEEE 754 single-precision value, by its bits.
#[derive(Clone, Copy, Debug, PartialEq, Eq, Structural)]
pub struct F32 {
    pub bits: u32,
}

/// An IEEE 754 double-precision value, by its bits.
#[derive(Clone, Copy, Debug, PartialEq, Eq, Structural)]
pub struct F64 {
    pub bits: u64,
}

impl F32 {
    pub open spec fn is_negative(self) -> bool {
        self.bits >= 0x8000_0000
    }

    /// The bits without the sign: exponent and fraction.
    pub open spec fn magnitude(self) -> int {
        if self.is_negative() {
            self.bits - 0x8000_0000
        } else {
            self.bits as int
        }
    }

    pub open spec fn nan(self) -> bool {
        self.magnitude() > 0x7f80_0000
    }

    pub open spec fn finite(self) -> bool {
        self.magnitude() < 0x7f80_0000
    }

    /// Orders all values that are numbers as the reals they stand for.
    pub open spec fn order(self) -> int {
        if self.is_negative() {
            -self.magnitude()
        } else {
            self.magnitude()
        }
    }

    /// Orders all bit patterns as the IEEE 754 `totalOrder` predicate does.
    pub open spec fn total_order(self) -> int {
        if self.is_negative() {
            -self.magnitude() - 1
        } else {
            self.magnitude()
        }
    }

    pub open spec fn is_at_least(self, other: F32) -> bool {
        !self.nan() && !other.nan() && self.order() >= other.order()
    }

    pub open spec fn is_equal(self, other: F32) -> bool {
        !self.nan() && !other.nan() && self.order() == other.order()
    }

    pub fn is_finite(self) -> (r: bool)
        ensures
            r == self.finite(),
    {
        if self.bits >= 0x8000_0000 {
            self.bits - 0x8000_0000 < 0x7f80_0000
        } else {
            self.bits < 0x7f80_0000
        }
    }

    pub fn is_nan(self) -> (r: bool)
        ensures
            r == self.nan(),
    {
        if self.bits >= 0x8000_0000 {
            self.bits - 0x8000_0000 > 0x7f80_0000
        } else {
            self.bits > 0x7f80_0000
        }
    }

    fn order_key(self) -> (r: i64)
        ensures
            r == self.order(),
    {
        if self.bits >= 0x8000_0000 {
            -((self.bits - 0x8000_0000) as i64)
        } else {
            self.bits as i64
        }
    }

    pub fn total_order_key(self) -> (r: i64)
        ensures
            r == self.total_order(),
    {
        if self.bits >= 0x8000_0000 {
            -((self.bits - 0x8000_0000) as i64) - 1
        } else {
            self.bits as i64
        }
    }

    /// The IEEE comparison `self >= other`.
    pub fn at_least(self, other: F32) -> (r: bool)
        ensures
            r == self.is_at_least(other),
    {
        !self.is_nan() && !other.is_nan() && self.order_key() >= other.order_key()
    }

    /// The IEEE comparison `self == other`.
    pub fn equals(self, other: F32) -> (r: bool)
        ensures
            r == self.is_equal(other),
    {
        !self.is_nan() && !other.is_nan() && self.order_key() == other.order_key()
    }
}

impl F64 {
    pub open spec fn is_negative(self) -> bool {
        self.bits >= 0x8000_0000_0000_0000
    }

    /// The bits without the sign: exponent and fraction.
    pub open spec fn magnitude(self) -> int {
        if self.is_negative() {
            self.bits - 0x8000_0000_0000_0000
        } else {
            self.bits as int
        }
    }

    pub open spec fn nan(self) -> bool {
        self.magnitude() > 0x7ff0_0000_0000_0000
    }

    pub open spec fn finite(self) -> bool {
        self.magnitude() < 0x7ff0_0000_0000_0000
    }

    /// Orders all values that are numbers as the reals they stand for.
    pub open spec fn order(self) -> int {
        if self.is_negative() {
            -self.magnitude()
        } else {
            self.magnitude()
        }
    }

    /// Orders all bit patterns as the IEEE 754 `totalOrder` predicate does.
    pub open spec fn total_order(self) -> int {
        if self.is_negative() {
            -self.magnitude() - 1
        } else {
            self.magnitude()
        }
    }

    pub open spec fn is_at_least(self, other: F64) -> bool {
        !self.nan() && !other.nan() && self.order() >= other.order()
    }

    pub open spec fn is_above(self, other: F64) -> bool {
        !self.nan() && !other.nan() && self.order() > other.order()
    }

    pub open spec fn is_equal(self, other: F64) -> bool {
        !self.nan() && !other.nan() && self.order() == other.order()
    }

    pub fn is_finite(self) -> (r: bool)
        ensures
            r == self.finite(),
    {
        if self.bits >= 0x8000_0000_0000_0000 {
            self.bits - 0x8000_0000_0000_0000 < 0x7ff0_0000_0000_0000
        } else {
            self.bits < 0x7ff0_0000_0000_0000
        }
    }

    pub fn is_nan(self) -> (r: bool)
        ensures
            r == self.nan(),
    {
        if self.bits >= 0x8000_0000_0000_0000 {
            self.bits - 0x8000_0000_0000_0000 > 0x7ff0_0000_0000_0000
        } else {
            self.bits > 0x7ff0_0000_0000_0000
        }
    }

    fn order_key(self) -> (r: i64)
        ensures
            r == self.order(),
    {
        if self.bits >= 0x8000_0000_0000_0000 {
            -((self.bits - 0x8000_0000_0000_0000) as i64)
        } else {
            self.bits as i64
        }
    }

    pub fn total_order_key(self) -> (r: i64)
        ensures
            r == self.total_order(),
    {
        if self.bits >= 0x8000_0000_0000_0000 {
            -((self.bits - 0x8000_0000_0000_0000) as i64) - 1
        } else {
            self.bits as i64
        }
    }

    /// The IEEE comparison `self >= other`.
    pub fn at_least(self, other: F64) -> (r: bool)
        ensures
            r == self.is_at_least(other),
    {
        !self.is_nan() && !other.is_nan() && self.order_key() >= other.order_key()
    }

    /// The IEEE comparison `self > other`.
    pub fn above(self, other: F64) -> (r: bool)
        ensures
            r == self.is_above(other),
    {
        !self.is_nan() && !other.is_nan() && self.order_key() > other.order_key()
    }

    /// The IEEE comparison `self == other`.
    pub fn equals(self, other: F64) -> (r: bool)
        ensures
            r == self.is_equal(other),
    {
        !self.is_nan() && !other.is_nan() && self.order_key() == other.order_key()
    }
}

/// Distinct bit patterns are never tied in the total order.
pub proof fn total_order_is_injective(a: F64, b: F64)
    ensures
        a.total_order() == b.total_order() <==> a == b,
{
}

/// On numbers, the total order refines the order of the reals.
pub proof fn total_order_refines_order(a: F64, b: F64)
    requires
        !a.nan(),
        !b.nan(),
        a.order() < b.order(),
    ensures
        a.total_order() < b.total_order(),
{
}

} // verus!
