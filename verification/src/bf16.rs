//! Brain floating-point values, widened by the `half` crate.
use vstd::prelude::*;

use crate::float::F32;

verus! {

/// A brain floating-point value, by its bits.
#[derive(Clone, Copy, Debug, PartialEq, Eq, Structural)]
pub struct Bf16 {
    pub bits: u16,
}

impl Bf16 {
    /// The bits without the sign: exponent and fraction.
    pub open spec fn magnitude(self) -> int {
        if self.bits >= 0x8000 {
            self.bits - 0x8000
        } else {
            self.bits as int
        }
    }

    pub open spec fn nan(self) -> bool {
        self.magnitude() > 0x7f80
    }

    pub open spec fn finite(self) -> bool {
        self.magnitude() < 0x7f80
    }

    /// The single-precision value of the same number; a NaN is quieted by setting the
    /// highest bit of its fraction.
    pub open spec fn widened(self) -> F32 {
        if self.nan() && (self.bits / 64) % 2 == 0 {
            F32 { bits: ((self.bits + 64) * 65536) as u32 }
        } else {
            F32 { bits: (self.bits * 65536) as u32 }
        }
    }
}

/// Calls `half::bf16::to_f32` on the value with these bits and returns the bits of its
/// result.
///
/// Claimed: sixteen zero bits are appended, and a NaN gets the highest bit of its fraction
/// set.
#[verifier::external_body]
pub(crate) fn widen(value: Bf16) -> (r: F32)
    ensures
        r == value.widened(),
{
    F32 { bits: half::bf16::from_bits(value.bits).to_f32().to_bits() }
}

impl F32 {
    /// The nearest brain floating-point value, of two equally near ones that with an even
    /// last bit; a NaN keeps its upper half and gets the highest bit of its fraction set.
    pub open spec fn narrowed(self) -> Bf16 {
        let upper = self.bits as int / 65536;
        let lower = self.bits as int % 65536;
        if self.nan() {
            Bf16 {
                bits: (if (upper / 64) % 2 == 0 {
                    upper + 64
                } else {
                    upper
                }) as u16,
            }
        } else if lower > 32768 || lower == 32768 && upper % 2 == 1 {
            Bf16 { bits: (upper + 1) as u16 }
        } else {
            Bf16 { bits: upper as u16 }
        }
    }

    /// Rounds to the nearest brain floating-point value.
    pub fn narrow(self) -> (r: Bf16)
        ensures
            r == self.narrowed(),
    {
        let upper: u32 = self.bits / 65536;
        let lower: u32 = self.bits % 65536;
        if self.is_nan() {
            if (upper / 64) % 2 == 0 {
                Bf16 { bits: (upper + 64) as u16 }
            } else {
                Bf16 { bits: upper as u16 }
            }
        } else if lower > 32768 || (lower == 32768 && upper % 2 == 1) {
            Bf16 { bits: (upper + 1) as u16 }
        } else {
            Bf16 { bits: upper as u16 }
        }
    }
}

/// Narrowing gives back what was widened; of a NaN it gives back the quieted form.
pub proof fn narrowing_undoes_widening(value: Bf16)
    ensures
        !value.nan() ==> value.widened().narrowed() == value,
        value.nan() ==> value.widened().narrowed().nan(),
{
}

/// A finite value stays finite when widened, and keeps its place in the total order of
/// all widened numbers.
pub proof fn widening_keeps_numbers(a: Bf16, b: Bf16)
    requires
        !a.nan(),
        !b.nan(),
    ensures
        a.finite() <==> a.widened().finite(),
        !a.widened().nan(),
        a.widened().is_negative() <==> a.bits >= 0x8000,
        a.widened() == b.widened() <==> a == b,
{
}

} // verus!
