//! The scalar representation: one signed 32-bit integer interpreted as
//! `raw / 65536`, together with its pure conversions and ordering helpers.

use vstd::prelude::*;

verus! {

/// A signed 16.16 fixed-point number: the held `i32` stands for `raw / 65536`.
#[derive(Copy, Clone, Debug, PartialEq, Eq, Structural)]
pub struct Fix16(pub i32);

/// Raw value of the largest representable number.
pub const FIX16_MAX: i32 = 0x7FFF_FFFF;

/// Raw value of the smallest representable number; doubles as the sentinel
/// returned for division by zero and some overflow paths.
pub const FIX16_MIN: i32 = -0x8000_0000;

/// The overflow sentinel equals `FIX16_MIN`.
pub const FIX16_OVERFLOW: i32 = -0x8000_0000;

/// Raw value of one: a unit step in the integer part.
pub const FIX16_ONE: i32 = 0x0001_0000;

/// Raw value closest to the circle constant pi.
pub const FIX16_PI: i32 = 205887;

/// Raw value closest to Euler's number.
pub const FIX16_E: i32 = 178145;

pub const FOUR_DIV_PI: i32 = 0x145F3;

pub const NEG_FOUR_DIV_PI: i32 = -0x67C0;

pub const X4_CORRECTION_COMPONENT: i32 = 0x399A;

pub const PI_DIV_4: i32 = 0x0000_C90F;

pub const THREE_PI_DIV_4: i32 = 0x0002_5B2F;

impl From<i32> for Fix16 {
    /// Scales the integer up by one whole unit, wrapping silently on 32-bit
    /// overflow.
    fn from(val: i32) -> (r: Fix16) {
        Fix16(val.wrapping_mul(FIX16_ONE))
    }
}

impl vstd::std_specs::convert::FromSpecImpl<i32> for Fix16 {
    open spec fn obeys_from_spec() -> bool {
        true
    }

    open spec fn from_spec(val: i32) -> Fix16 {
        Fix16(vstd::wrapping::i32_specs::wrapping_mul(val, FIX16_ONE))
    }
}

/// Truncating (round-toward-zero) division, for a positive divisor.
pub open spec fn tdiv(a: int, b: int) -> int {
    if a >= 0 {
        a / b
    } else {
        -((-a) / b)
    }
}

/// What rounding a raw value to the nearest whole integer yields, ties away
/// from zero: half a unit is first added toward the value's sign (wrapping
/// like the 32-bit machine step it names), then the whole part is taken.
pub open spec fn to_int_spec(raw: i32) -> int {
    let biased = if raw >= 0 {
        vstd::wrapping::i32_specs::wrapping_add(raw, 0x8000)
    } else {
        vstd::wrapping::i32_specs::wrapping_sub(raw, 0x8000)
    };
    tdiv(biased as int, 0x1_0000)
}

impl From<Fix16> for i32 {
    /// Rounds to the nearest integer, ties away from zero.
    fn from(val: Fix16) -> (r: i32) {
        val.to_int()
    }
}

impl vstd::std_specs::convert::FromSpecImpl<Fix16> for i32 {
    open spec fn obeys_from_spec() -> bool {
        true
    }

    open spec fn from_spec(val: Fix16) -> i32 {
        to_int_spec(val.0) as i32
    }
}

impl Fix16 {
    /// Rounds to the nearest integer, ties away from zero: computed as
    /// `(raw + half) / 65536` with truncating division, sign-adjusted.
    pub fn to_int(self) -> (r: i32)
        ensures
            r == to_int_spec(self.0),
    {
        if crate::no_rounding() {
            self.0 >> 16
        } else if self.0 >= 0 {
            self.0.wrapping_add(0x8000) / FIX16_ONE
        } else {
            self.0.wrapping_sub(0x8000) / FIX16_ONE
        }
    }

    /// The absolute value of the raw field, wrapping on the one
    /// unrepresentable input: the absolute value of `FIX16_MIN` is itself.
    pub fn abs(self) -> (r: Fix16)
        ensures
            r.0 == if self.0 == i32::MIN {
                i32::MIN as int
            } else if self.0 < 0 {
                -self.0 as int
            } else {
                self.0 as int
            },
    {
        if self.0 < 0 {
            Fix16(0i32.wrapping_sub(self.0))
        } else {
            self
        }
    }

    /// Rounds toward negative infinity by clearing the fractional bits.
    pub fn floor(self) -> (r: Fix16)
        ensures
            r.0 == self.0 & !0xFFFF,
    {
        Fix16(self.0 & !0xFFFF)
    }

    /// Rounds toward positive infinity: the floor, plus one whole unit when
    /// any fractional bit is set.  The addition wraps for raw values in the
    /// topmost whole unit.
    pub fn ceil(self) -> (r: Fix16)
        ensures
            r.0 == vstd::wrapping::i32_specs::wrapping_add(
                self.0 & !0xFFFF,
                if self.0 & 0xFFFF != 0 { 0x1_0000 } else { 0 },
            ),
    {
        let whole = self.0 & !0xFFFF;
        if self.0 & 0xFFFF != 0 {
            Fix16(whole.wrapping_add(0x1_0000))
        } else {
            Fix16(whole)
        }
    }

    /// The smaller of the two values.
    pub fn min(self, rhs: Fix16) -> (r: Fix16)
        ensures
            r.0 == if self.0 <= rhs.0 { self.0 } else { rhs.0 },
    {
        if self.0 <= rhs.0 {
            self
        } else {
            rhs
        }
    }

    /// The larger of the two values.
    pub fn max(self, rhs: Fix16) -> (r: Fix16)
        ensures
            r.0 == if self.0 >= rhs.0 { self.0 } else { rhs.0 },
    {
        if self.0 >= rhs.0 {
            self
        } else {
            rhs
        }
    }

    /// Composes `min(low)` with `max(high)`, in that order: the result is
    /// `high` whenever `high >= min(self, low)`, so the high bound wins over
    /// the low one.
    pub fn clamp(self, low: Fix16, high: Fix16) -> (r: Fix16)
        ensures
            r.0 == {
                let lowered = if self.0 <= low.0 { self.0 } else { low.0 };
                if lowered >= high.0 { lowered } else { high.0 }
            },
    {
        self.min(low).max(high)
    }
}

} // verus!
