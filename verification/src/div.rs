//! The restoring-division engine: `(|a| << 17) / |b|` is computed with the
//! native 32-bit divider as a subroutine, one chunk of quotient bits per
//! round, then rounded and rescaled by one bit, with the sign restored last.

use vstd::prelude::*;

use crate::fix16::Fix16;
use crate::fix16::FIX16_MAX;
use crate::fix16::FIX16_MIN;

verus! {

/// The magnitude of a raw value, as the 32-bit unsigned machine word the
/// engine works on; the magnitude of `FIX16_MIN` is `0x8000_0000`.
pub open spec fn uabs32(a: i32) -> u32 {
    if a >= 0 {
        a as u32
    } else {
        (-(a as int)) as u32
    }
}

/// 32-bit wrapping negation of a raw value.
pub open spec fn wneg32(x: i32) -> i32 {
    vstd::wrapping::i32_specs::wrapping_sub(0i32, x)
}

/// One doubling step of the leading-zero count: the probe value is doubled
/// until its top bit is set, at most 32 times.
pub open spec fn clz_rec(y: u32, n: u32) -> u32
    decreases 32 - n,
{
    if n >= 32 {
        32
    } else if y >= 0x8000_0000 {
        n
    } else {
        clz_rec((2 * y) as u32, (n + 1) as u32)
    }
}

/// How many leading zero bits a 32-bit word has.
pub open spec fn clz32(x: u32) -> u32 {
    clz_rec(x, 0)
}

/// A termination measure for the loop budget, which may step below zero.
pub open spec fn budget_measure(bp: i32) -> int {
    if bp < 0 {
        0
    } else {
        bp + 1
    }
}

/// The coarse seeding step: when the divisor's top twelve bits are occupied,
/// a lower estimate `rem / ((div >> 17) + 1)` seeds the quotient and the
/// matching partial product is taken out of the remainder.
pub open spec fn div_kick(rem: u32, div: u32) -> (u32, u32) {
    if div & 0xFFF0_0000 != 0 {
        let sd = ((div >> 17) + 1) as u32;
        let q0 = (rem / sd) as u32;
        let prod = ((q0 as int) * (div as int)) as u64;
        let r2 = (rem - ((prod >> 17) as u32)) as u32;
        (q0, r2)
    } else {
        (0, rem)
    }
}

/// Stripping common factors of sixteen from the divisor while its low nibble
/// is clear and at least four bits of position budget remain.
pub open spec fn div_strip(div: u32, bp: i32) -> (u32, i32)
    decreases budget_measure(bp),
{
    if div & 0xF == 0 && bp >= 4 {
        div_strip(div >> 4, (bp - 4) as i32)
    } else {
        (div, bp)
    }
}

/// The main restoring rounds: the remainder is pushed as far left as the
/// budget and its leading zeros allow, one native division contributes a
/// chunk of quotient bits at the current position, overflow is flagged when
/// the chunk holds bits above the remaining budget, and one extra bit of
/// fractional precision is produced for the final rounding.
pub open spec fn div_loop(rem: u32, div: u32, q: u32, bp: i32, ov: bool) -> (u32, bool)
    decreases budget_measure(bp),
{
    if rem == 0 || bp < 0 {
        (q, ov)
    } else {
        let lz = clz32(rem);
        let shift = if lz < bp as u32 {
            lz
        } else {
            bp as u32
        };
        let rem_a = rem << shift;
        let bp_a = (bp - shift) as i32;
        let chunk = (rem_a / div) as u32;
        let rem_b = (rem_a % div) as u32;
        let q2 = vstd::wrapping::u32_specs::wrapping_add(q, chunk << bp_a as u32);
        let ov2 = ov || (chunk & !(u32::MAX >> bp_a as u32)) != 0;
        let rem_c = rem_b << 1u32;
        div_loop(rem_c, div, q2, (bp_a - 1) as i32, ov2)
    }
}

/// What the whole engine returns for raw values `a / b`: the sentinel for a
/// zero divisor (never flagged as overflow), otherwise the seeded, stripped
/// and restored quotient, incremented for round-to-nearest, halved back to
/// sixteen fractional bits, with the sign of `a ^ b` restored.
pub open spec fn div_engine(a: i32, b: i32) -> (i32, bool) {
    if b == 0 {
        (i32::MIN, false)
    } else {
        let rem0 = uabs32(a);
        let div0 = uabs32(b);
        let kicked = div_kick(rem0, div0);
        let stripped = div_strip(div0, 17);
        let looped = div_loop(kicked.1, stripped.0, kicked.0, stripped.1, false);
        let q = vstd::wrapping::u32_specs::wrapping_add(looped.0, 1);
        let res = (q as i32) >> 1u32;
        if ((a as u32) ^ (b as u32)) & 0x8000_0000 != 0 {
            (wneg32(res), looped.1 || res == i32::MIN)
        } else {
            (res, looped.1)
        }
    }
}

/// How many leading zero bits the word has, by doubling a probe copy until
/// its top bit is set.
fn leading_zeros_u32(x: u32) -> (n: u32)
    ensures
        n == clz32(x),
        n <= 32,
{
    let mut y = x;
    let mut n: u32 = 0;
    while n < 32 && y < 0x8000_0000
        invariant
            n <= 32,
            clz_rec(y, n) == clz32(x),
        decreases 32 - n,
    {
        y = y * 2;
        n = n + 1;
    }
    n
}

/// The magnitude of a raw value as the unsigned machine word.
pub(crate) fn magnitude32(a: i32) -> (m: u32)
    ensures
        m == uabs32(a),
{
    if a >= 0 {
        a as u32
    } else if a == i32::MIN {
        0x8000_0000u32
    } else {
        (-a) as u32
    }
}

impl Fix16 {
    /// The engine's quotient beside its overflow flag.  A zero divisor
    /// returns the `FIX16_MIN` sentinel with the flag left `false`: division
    /// by zero is deliberately not an overflow condition.
    pub fn overflowing_div(self, rhs: Fix16) -> (r: (Fix16, bool))
        ensures
            r.0.0 == div_engine(self.0, rhs.0).0,
            r.1 == div_engine(self.0, rhs.0).1,
            rhs.0 == 0 ==> r.0.0 == FIX16_MIN && r.1 == false,
    {
        if rhs.0 == 0 {
            return (Fix16(FIX16_MIN), false);
        }

        let mut remainder = magnitude32(self.0);
        let mut divider = magnitude32(rhs.0);
        let mut quotient: u32 = 0;
        let mut bit_pos: i32 = 17;
        let mut overflowed = false;

        let ghost rem0 = remainder;
        let ghost div0 = divider;

        // The coarse seeding step for large divisors.
        if divider & 0xFFF0_0000 != 0 {
            assert(divider >> 17 < 0x8000) by (bit_vector);
            let shifted_div = (divider >> 17) + 1;
            quotient = remainder / shifted_div;
            proof {
                assert((quotient as int) * (divider as int) < 0x8000_0000_0000_0000)
                    by (nonlinear_arith)
                    requires
                        0 <= quotient < 0x1_0000_0000,
                        0 <= divider <= 0x8000_0000,
                ;
            }
            let prod = (quotient as u64) * (divider as u64);
            proof {
                lemma_kick_fits(remainder, divider, prod);
            }
            remainder = remainder - ((prod >> 17) as u32);
            assert((quotient, remainder) == div_kick(rem0, div0));
        }

        // Strip common factors of sixteen from the divisor.
        while divider & 0xF == 0 && bit_pos >= 4
            invariant
                1 <= divider <= 0x8000_0000,
                bit_pos <= 17,
                div_strip(divider, bit_pos) == div_strip(div0, 17),
            decreases budget_measure(bit_pos),
        {
            assert(divider >= 16 && divider >> 4 >= 1 && divider >> 4 <= 0x800_0000)
                by (bit_vector)
                requires
                    divider >= 1 && divider <= 0x8000_0000 && divider & 0xF == 0,
            ;
            divider = divider >> 4;
            bit_pos = bit_pos - 4;
        }

        let ghost stripped = div_strip(div0, 17);

        // The main restoring rounds.
        while remainder != 0 && bit_pos >= 0
            invariant
                1 <= divider,
                bit_pos <= 17,
                div_loop(remainder, divider, quotient, bit_pos, overflowed) == div_loop(
                    div_kick(rem0, div0).1,
                    stripped.0,
                    div_kick(rem0, div0).0,
                    stripped.1,
                    false,
                ),
            decreases budget_measure(bit_pos),
        {
            let lz = leading_zeros_u32(remainder);
            let shift = if lz < bit_pos as u32 {
                lz
            } else {
                bit_pos as u32
            };

            remainder = remainder << shift;
            bit_pos = bit_pos - (shift as i32);

            let chunk = remainder / divider;
            remainder = remainder % divider;
            quotient = quotient.wrapping_add(chunk << (bit_pos as u32));

            overflowed = overflowed || (chunk & !(u32::MAX >> (bit_pos as u32))) != 0;

            remainder = remainder << 1u32;
            bit_pos = bit_pos - 1;
        }

        if !crate::no_rounding() {
            quotient = quotient.wrapping_add(1);
        }

        let res = (quotient as i32) >> 1u32;

        if ((self.0 as u32) ^ (rhs.0 as u32)) & 0x8000_0000 != 0 {
            overflowed = overflowed || res == i32::MIN;
            (Fix16(0i32.wrapping_sub(res)), overflowed)
        } else {
            (Fix16(res), overflowed)
        }
    }

    /// The engine's quotient, clamped on overflow: to `FIX16_MAX` when the
    /// operand signs agree, to `FIX16_MIN` otherwise.  A zero divisor is not
    /// an overflow, so it yields the sentinel unclamped.
    pub fn saturating_div(self, rhs: Fix16) -> (r: Fix16)
        ensures
            r.0 == if div_engine(self.0, rhs.0).1 {
                if (self.0 > 0) == (rhs.0 > 0) {
                    FIX16_MAX as int
                } else {
                    FIX16_MIN as int
                }
            } else {
                div_engine(self.0, rhs.0).0 as int
            },
    {
        let (v, overflowed) = self.overflowing_div(rhs);
        if overflowed {
            if (self.0 > 0) == (rhs.0 > 0) {
                Fix16(FIX16_MAX)
            } else {
                Fix16(FIX16_MIN)
            }
        } else {
            v
        }
    }
}

/// The seeding step's partial product, scaled back down, never exceeds the
/// remainder it is taken from, and fits the 32-bit word.
proof fn lemma_kick_fits(rem: u32, div: u32, prod: u64)
    requires
        div & 0xFFF0_0000 != 0,
        prod as int == ((rem as int) / (((div >> 17) + 1) as int)) * (div as int),
    ensures
        (prod >> 17) as int <= rem,
        (prod >> 17) as int == (prod as int) / 0x2_0000,
{
    let sd = ((div >> 17) + 1) as int;
    let q0 = (rem as int) / sd;

    assert(div >> 17 == div / 0x2_0000) by (bit_vector);
    assert((div as int) < sd * 0x2_0000) by {
        vstd::arithmetic::div_mod::lemma_fundamental_div_mod(div as int, 0x2_0000);
    };
    assert(q0 * sd <= rem as int) by {
        vstd::arithmetic::div_mod::lemma_fundamental_div_mod(rem as int, sd);
    };
    assert(q0 * (div as int) <= (rem as int) * 0x2_0000) by (nonlinear_arith)
        requires
            (div as int) < sd * 0x2_0000,
            q0 * sd <= rem as int,
            q0 >= 0,
            div >= 0,
    ;
    assert((prod as int) / 0x2_0000 <= rem) by {
        vstd::arithmetic::div_mod::lemma_div_is_ordered(
            prod as int,
            (rem as int) * 0x2_0000,
            0x2_0000,
        );
        vstd::arithmetic::div_mod::lemma_div_by_multiple(rem as int, 0x2_0000);
    };
    assert(prod >> 17 == prod / 0x2_0000) by (bit_vector);
}

impl std::ops::Div<Fix16> for Fix16 {
    type Output = Fix16;

    /// The operator form returns the engine's quotient with overflow bits
    /// silently dropped, and the `FIX16_MIN` sentinel for a zero divisor.
    fn div(self, rhs: Fix16) -> (r: Fix16) {
        let (v, _overflowed) = self.overflowing_div(rhs);
        v
    }
}

impl vstd::std_specs::ops::DivSpecImpl<Fix16> for Fix16 {
    open spec fn obeys_div_spec() -> bool {
        true
    }

    open spec fn div_req(self, rhs: Fix16) -> bool {
        true
    }

    open spec fn div_spec(self, rhs: Fix16) -> Fix16 {
        Fix16(div_engine(self.0, rhs.0).0)
    }
}

} // verus!
