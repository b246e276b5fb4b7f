//! Addition and subtraction in the three overflow policies, and the wrapping
//! operator forms, together with the remainder and shift operators.

use vstd::prelude::*;

use crate::fix16::Fix16;
use crate::fix16::FIX16_MAX;
use crate::fix16::FIX16_MIN;
use crate::fix16::to_int_spec;

verus! {

/// 32-bit wrapping addition on raw values.
pub open spec fn wadd(a: i32, b: i32) -> i32 {
    vstd::wrapping::i32_specs::wrapping_add(a, b)
}

/// 32-bit wrapping subtraction on raw values.
pub open spec fn wsub(a: i32, b: i32) -> i32 {
    vstd::wrapping::i32_specs::wrapping_sub(a, b)
}

/// Whether the exact sum escapes the 32-bit signed range.
pub open spec fn add_overflows(a: i32, b: i32) -> bool {
    !(i32::MIN <= a + b <= i32::MAX)
}

/// Whether the exact difference escapes the 32-bit signed range.
pub open spec fn sub_overflows(a: i32, b: i32) -> bool {
    !(i32::MIN <= a - b <= i32::MAX)
}

/// Rust's truncating remainder on 32-bit values, written over the Euclidean
/// remainder: the sign of the left operand is restored onto the result.
pub open spec fn trem32(a: i32, b: i32) -> i32 {
    (if a >= 0 {
        (a as int) % (b as int)
    } else {
        -((-(a as int)) % (b as int))
    }) as i32
}

/// The exact sum clamped to the 32-bit signed range.
pub open spec fn sat_i32(v: int) -> int {
    if v > i32::MAX {
        i32::MAX as int
    } else if v < i32::MIN {
        i32::MIN as int
    } else {
        v
    }
}

impl Fix16 {
    /// The wrapped 32-bit sum, beside a flag telling whether the exact sum
    /// overflowed the representable range.
    pub fn overflowing_add(self, rhs: Fix16) -> (r: (Fix16, bool))
        ensures
            r.0.0 == wadd(self.0, rhs.0),
            r.1 == add_overflows(self.0, rhs.0),
    {
        match self.0.checked_add(rhs.0) {
            Some(v) => (Fix16(v), false),
            None => (Fix16(self.0.wrapping_add(rhs.0)), true),
        }
    }

    /// The wrapped 32-bit difference, beside a flag telling whether the exact
    /// difference overflowed the representable range.
    pub fn overflowing_sub(self, rhs: Fix16) -> (r: (Fix16, bool))
        ensures
            r.0.0 == wsub(self.0, rhs.0),
            r.1 == sub_overflows(self.0, rhs.0),
    {
        match self.0.checked_sub(rhs.0) {
            Some(v) => (Fix16(v), false),
            None => (Fix16(self.0.wrapping_sub(rhs.0)), true),
        }
    }

    /// The exact sum, clamped to `FIX16_MAX` or `FIX16_MIN` on overflow.
    pub fn saturating_add(self, rhs: Fix16) -> (r: Fix16)
        ensures
            r.0 == sat_i32(self.0 + rhs.0),
    {
        let (v, overflowed) = self.overflowing_add(rhs);
        if overflowed {
            if self.0 >= 0 {
                Fix16(FIX16_MAX)
            } else {
                Fix16(FIX16_MIN)
            }
        } else {
            v
        }
    }

    /// The exact difference, clamped to `FIX16_MAX` or `FIX16_MIN` on
    /// overflow.
    pub fn saturating_sub(self, rhs: Fix16) -> (r: Fix16)
        ensures
            r.0 == sat_i32(self.0 - rhs.0),
    {
        let (v, overflowed) = self.overflowing_sub(rhs);
        if overflowed {
            if self.0 >= 0 {
                Fix16(FIX16_MAX)
            } else {
                Fix16(FIX16_MIN)
            }
        } else {
            v
        }
    }
}

impl std::ops::Add<Fix16> for Fix16 {
    type Output = Fix16;

    /// The operator form wraps silently on overflow.
    fn add(self, rhs: Fix16) -> (r: Fix16) {
        Fix16(self.0.wrapping_add(rhs.0))
    }
}

impl vstd::std_specs::ops::AddSpecImpl<Fix16> for Fix16 {
    open spec fn obeys_add_spec() -> bool {
        true
    }

    open spec fn add_req(self, rhs: Fix16) -> bool {
        true
    }

    open spec fn add_spec(self, rhs: Fix16) -> Fix16 {
        Fix16(wadd(self.0, rhs.0))
    }
}

impl std::ops::Sub<Fix16> for Fix16 {
    type Output = Fix16;

    /// The operator form wraps silently on overflow.
    fn sub(self, rhs: Fix16) -> (r: Fix16) {
        Fix16(self.0.wrapping_sub(rhs.0))
    }
}

impl vstd::std_specs::ops::SubSpecImpl<Fix16> for Fix16 {
    open spec fn obeys_sub_spec() -> bool {
        true
    }

    open spec fn sub_req(self, rhs: Fix16) -> bool {
        true
    }

    open spec fn sub_spec(self, rhs: Fix16) -> Fix16 {
        Fix16(wsub(self.0, rhs.0))
    }
}

impl std::ops::Rem<Fix16> for Fix16 {
    type Output = Fix16;

    /// Native truncating remainder on the raw values, with no fixed-point
    /// rescaling.  A zero divisor, and `FIX16_MIN % -1`, are left out by the
    /// operator's precondition.
    fn rem(self, rhs: Fix16) -> (r: Fix16) {
        Fix16(self.0 % rhs.0)
    }
}

impl vstd::std_specs::ops::RemSpecImpl<Fix16> for Fix16 {
    open spec fn obeys_rem_spec() -> bool {
        true
    }

    open spec fn rem_req(self, rhs: Fix16) -> bool {
        rhs.0 != 0 && !(self.0 == i32::MIN && rhs.0 == -1)
    }

    open spec fn rem_spec(self, rhs: Fix16) -> Fix16 {
        Fix16(trem32(self.0, rhs.0))
    }
}

impl std::ops::Shl<Fix16> for Fix16 {
    type Output = Fix16;

    /// Shifts the raw value left by the integer obtained from rounding the
    /// right-hand value; amounts outside `[0, 32)` are left out by the
    /// operator's precondition.
    fn shl(self, rhs: Fix16) -> (r: Fix16) {
        let amount = rhs.to_int();
        Fix16(self.0 << amount)
    }
}

impl vstd::std_specs::ops::ShlSpecImpl<Fix16> for Fix16 {
    open spec fn obeys_shl_spec() -> bool {
        true
    }

    open spec fn shl_req(self, rhs: Fix16) -> bool {
        0 <= to_int_spec(rhs.0) < 32
    }

    open spec fn shl_spec(self, rhs: Fix16) -> Fix16 {
        Fix16(self.0 << (to_int_spec(rhs.0) as i32))
    }
}

impl std::ops::Shr<Fix16> for Fix16 {
    type Output = Fix16;

    /// Shifts the raw value right (an arithmetic shift) by the integer
    /// obtained from rounding the right-hand value; amounts outside `[0, 32)`
    /// are left out by the operator's precondition.
    fn shr(self, rhs: Fix16) -> (r: Fix16) {
        let amount = rhs.to_int();
        Fix16(self.0 >> amount)
    }
}

impl vstd::std_specs::ops::ShrSpecImpl<Fix16> for Fix16 {
    open spec fn obeys_shr_spec() -> bool {
        true
    }

    open spec fn shr_req(self, rhs: Fix16) -> bool {
        0 <= to_int_spec(rhs.0) < 32
    }

    open spec fn shr_spec(self, rhs: Fix16) -> Fix16 {
        Fix16(self.0 >> (to_int_spec(rhs.0) as i32))
    }
}

} // verus!
