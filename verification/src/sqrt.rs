//! The two-pass digit-extraction square root: base-4 digits are probed out
//! of the magnitude, the state is rescaled by sixteen bits between the
//! integer and the fractional pass, and the sign is restored at the end.

use vstd::prelude::*;

use crate::fix16::Fix16;
use crate::div::uabs32;
use crate::div::wneg32;
use crate::div::magnitude32;

verus! {

/// 32-bit wrapping addition on unsigned words.
pub open spec fn wadd32(a: u32, b: u32) -> u32 {
    vstd::wrapping::u32_specs::wrapping_add(a, b)
}

/// 32-bit wrapping subtraction on unsigned words.
pub open spec fn wsub32(a: u32, b: u32) -> u32 {
    vstd::wrapping::u32_specs::wrapping_sub(a, b)
}

/// 32-bit wrapping multiplication on unsigned words.
pub open spec fn wmul32(a: u32, b: u32) -> u32 {
    vstd::wrapping::u32_specs::wrapping_mul(a, b)
}

/// Lowering the probe bit by base-4 steps until it no longer exceeds the
/// input.
pub open spec fn sqrt_probe(bit: u32, num: u32) -> u32
    decreases bit,
{
    if bit > num {
        sqrt_probe(bit / 4, num)
    } else {
        bit
    }
}

/// One digit-extraction pass: while the probe bit is set, the candidate
/// `res + bit` is subtracted out of the remainder whenever it fits, the
/// result gathers the accepted bit, and the probe drops by base-4 steps.
/// Returns the remainder and the gathered result.
pub open spec fn sqrt_pass(num: u32, res: u32, bit: u32) -> (u32, u32)
    decreases bit,
{
    if bit == 0 {
        (num, res)
    } else {
        let cand = wadd32(res, bit);
        if num >= cand {
            sqrt_pass((num - cand) as u32, wadd32(res / 2, bit), bit / 4)
        } else {
            sqrt_pass(num, res / 2, bit / 4)
        }
    }
}

/// The rescaling between the passes: a remainder above sixteen bits first
/// has the result taken out, then remainder and result are moved up sixteen
/// bits with half-unit corrections that avoid intermediate overflow; a small
/// remainder is moved up unchanged.
pub open spec fn sqrt_transition(num: u32, res: u32) -> (u32, u32) {
    if num > 0xFFFF {
        (wsub32(wmul32(wsub32(num, res), 0x1_0000), 0x8000), wadd32(
            wmul32(res, 0x1_0000),
            0x8000,
        ))
    } else {
        (wmul32(num, 0x1_0000), wmul32(res, 0x1_0000))
    }
}

/// What the whole engine returns for a raw value: the magnitude's root with
/// sixteen fractional bits, rounded up once when the final remainder exceeds
/// the result, and the input's sign restored onto the magnitude.
pub open spec fn sqrt_engine(a: i32) -> i32 {
    let num = uabs32(a);
    let start: u32 = if num & 0xFFF0_0000 != 0 {
        0x4000_0000
    } else {
        0x4_0000
    };
    let first = sqrt_pass(num, 0, sqrt_probe(start, num));
    let rescaled = sqrt_transition(first.0, first.1);
    let second = sqrt_pass(rescaled.0, rescaled.1, 0x4000);
    let rounded = if second.0 > second.1 {
        wadd32(second.1, 1)
    } else {
        second.1
    };
    if a < 0 {
        wneg32(rounded as i32)
    } else {
        rounded as i32
    }
}

impl Fix16 {
    /// The fixed-point square root of the magnitude, with the input's sign
    /// restored: the root of a negative value is the negated magnitude root
    /// by convention, not an error.
    pub fn sqrt(self) -> (r: Fix16)
        ensures
            r.0 == sqrt_engine(self.0),
    {
        let mut num = magnitude32(self.0);
        let mut res: u32 = 0;
        let mut bit: u32 = if num & 0xFFF0_0000 != 0 {
            0x4000_0000
        } else {
            0x4_0000
        };

        while bit > num
            invariant
                sqrt_probe(bit, num) == sqrt_probe(
                    if uabs32(self.0) & 0xFFF0_0000 != 0 {
                        0x4000_0000u32
                    } else {
                        0x4_0000u32
                    },
                    uabs32(self.0),
                ),
                num == uabs32(self.0),
            decreases bit,
        {
            bit = bit / 4;
        }

        let ghost first = sqrt_pass(uabs32(self.0), 0, bit);

        while bit != 0
            invariant
                sqrt_pass(num, res, bit) == first,
            decreases bit,
        {
            let cand = res.wrapping_add(bit);
            if num >= cand {
                num = num - cand;
                res = (res / 2).wrapping_add(bit);
            } else {
                res = res / 2;
            }
            bit = bit / 4;
        }

        if num > 0xFFFF {
            num = num.wrapping_sub(res);
            num = num.wrapping_mul(0x1_0000).wrapping_sub(0x8000);
            res = res.wrapping_mul(0x1_0000).wrapping_add(0x8000);
        } else {
            num = num.wrapping_mul(0x1_0000);
            res = res.wrapping_mul(0x1_0000);
        }
        bit = 0x4000;

        let ghost second = sqrt_pass(num, res, 0x4000);

        while bit != 0
            invariant
                sqrt_pass(num, res, bit) == second,
            decreases bit,
        {
            let cand = res.wrapping_add(bit);
            if num >= cand {
                num = num - cand;
                res = (res / 2).wrapping_add(bit);
            } else {
                res = res / 2;
            }
            bit = bit / 4;
        }

        if !crate::no_rounding() && num > res {
            res = res.wrapping_add(1);
        }

        if self.0 < 0 {
            Fix16(0i32.wrapping_sub(res as i32))
        } else {
            Fix16(res as i32)
        }
    }
}

} // verus!
