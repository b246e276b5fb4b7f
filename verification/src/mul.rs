//! The widened multiply: the operands are taken to 64 bits, the product is
//! inspected for overflow of the representable range, rounded, and shifted
//! back down by sixteen bits.

use vstd::prelude::*;

use crate::fix16::Fix16;
use crate::fix16::FIX16_MAX;
use crate::fix16::FIX16_MIN;
use crate::fix16::FIX16_OVERFLOW;
use crate::arith::wadd;

verus! {

/// The exact 64-bit product of the raw values.
pub open spec fn mul_product(a: i32, b: i32) -> i64 {
    ((a as int) * (b as int)) as i64
}

/// Whether the product overflows: bits 47..63 of the widened product are not
/// all equal to its sign bit, so the magnitude cannot survive the final
/// 16-bit right shift back into 32 bits.
pub open spec fn mul_overflowed(a: i32, b: i32) -> bool {
    let p = mul_product(a, b);
    let upper = (p >> 47) as u32;
    if p < 0 {
        !upper != 0
    } else {
        upper != 0
    }
}

/// The rounded product scaled back down: a negative product is first
/// decremented once (rounding ties away from zero), the whole is shifted
/// right sixteen bits, and bit 15 of the pre-shift value is added back in.
pub open spec fn mul_value(a: i32, b: i32) -> i32 {
    let p = mul_product(a, b);
    let q = if p < 0 {
        (p - 1) as i64
    } else {
        p
    };
    let shifted = (q >> 16) as i32;
    let round_bit = ((q & 0x8000) >> 15) as i32;
    wadd(shifted, round_bit)
}

/// Division of `p` by a positive step `d`, rounded to the nearest multiple
/// with ties away from zero.
pub open spec fn round_away(p: int, d: int) -> int {
    if p >= 0 {
        (p + d / 2) / d
    } else {
        -((-p + d / 2) / d)
    }
}

impl Fix16 {
    /// The rounded, wrapped product beside the overflow flag.
    pub fn overflowing_mul(self, rhs: Fix16) -> (r: (Fix16, bool))
        ensures
            r.0.0 == mul_value(self.0, rhs.0),
            r.1 == mul_overflowed(self.0, rhs.0),
    {
        proof {
            assert(-0x4000_0000_0000_0000 <= (self.0 as int) * (rhs.0 as int)
                <= 0x4000_0000_0000_0000) by (nonlinear_arith)
                requires
                    -0x8000_0000 <= self.0 <= 0x7FFF_FFFF,
                    -0x8000_0000 <= rhs.0 <= 0x7FFF_FFFF,
            ;
        }
        let mut overflowed = false;
        let mut product: i64 = (self.0 as i64) * (rhs.0 as i64);

        let upper = (product >> 47) as u32;
        if product < 0 {
            if !upper != 0 {
                overflowed = true;
            }
            if !crate::no_rounding() {
                product = product - 1;
            }
        } else if upper != 0 {
            overflowed = true;
        }

        let mut res = (product >> 16) as i32;
        if !crate::no_rounding() {
            res = res.wrapping_add(((product & 0x8000) >> 15) as i32);
        }

        (Fix16(res), overflowed)
    }

    /// The rounded product, clamped on overflow: to `FIX16_MAX` when the
    /// operand signs agree, to `FIX16_MIN` otherwise.
    pub fn saturating_mul(self, rhs: Fix16) -> (r: Fix16)
        ensures
            r.0 == if mul_overflowed(self.0, rhs.0) {
                if (self.0 > 0) == (rhs.0 > 0) {
                    FIX16_MAX as int
                } else {
                    FIX16_MIN as int
                }
            } else {
                mul_value(self.0, rhs.0) as int
            },
    {
        let (v, overflowed) = self.overflowing_mul(rhs);
        if overflowed {
            if (self.0 > 0) == (rhs.0 > 0) {
                Fix16(FIX16_MAX)
            } else {
                Fix16(FIX16_MIN)
            }
        } else {
            v
        }
    }
}

impl std::ops::Mul<Fix16> for Fix16 {
    type Output = Fix16;

    /// The operator form returns the `FIX16_OVERFLOW` sentinel whenever the
    /// product overflows, and the rounded product otherwise.
    fn mul(self, rhs: Fix16) -> (r: Fix16) {
        let (v, overflowed) = self.overflowing_mul(rhs);
        if overflowed {
            Fix16(FIX16_OVERFLOW)
        } else {
            v
        }
    }
}

impl vstd::std_specs::ops::MulSpecImpl<Fix16> for Fix16 {
    open spec fn obeys_mul_spec() -> bool {
        true
    }

    open spec fn mul_req(self, rhs: Fix16) -> bool {
        true
    }

    open spec fn mul_spec(self, rhs: Fix16) -> Fix16 {
        if mul_overflowed(self.0, rhs.0) {
            Fix16(FIX16_OVERFLOW)
        } else {
            Fix16(mul_value(self.0, rhs.0))
        }
    }
}

} // verus!
