//! The trigonometric engine: angles are reduced into one quarter period and
//! the quarter-wave sine magnitude is evaluated at native fixed-point
//! resolution.  The magnitude for each of the 102944 reduced angles is a
//! fixed number: the alternating series for the sine, summed at sixty
//! fractional bits of precision and rounded to the nearest sixteen-bit
//! fraction, which leaves a margin far below the distance of any entry to a
//! rounding tie.

use vstd::prelude::*;

use crate::fix16::Fix16;
use crate::fix16::FIX16_MAX;
use crate::fix16::FIX16_MIN;
use crate::arith::trem32;
use crate::arith::wadd;
use crate::div::div_engine;

verus! {

/// One whole unit at sixty fractional bits.
pub const SIN_SCALE: u128 = 0x1000_0000_0000_0000;

/// One table tick at sixty fractional bits: the scale divided by 65536.
pub const SIN_TICK: u128 = 0x1000_0000_0000;

/// Half a table tick, the rounding bias.
pub const SIN_HALF_TICK: u128 = 0x800_0000_0000;

/// Raw angle of a full turn: two pi.
pub const TWO_PI_RAW: i32 = 411774;

/// Raw angle of a half turn: pi.
pub const PI_RAW: i32 = 205887;

/// Raw angle of a quarter turn: pi halved, rounded down.
pub const HALF_PI_RAW: i32 = 102943;

/// How many reduced angles the quarter wave covers: the raw angles in
/// `[0, pi/2)`.
pub const QUARTER_COUNT: i32 = 102944;

/// The tail of the sine's alternating series from factor `k` upward, at
/// sixty fractional bits: one whole unit for the empty tail, and otherwise
/// `1 - (t / ((2k)(2k+1))) * tail(k + 1)` evaluated in truncating
/// fixed-point steps, where `t` is the squared angle.
pub open spec fn sine_poly(t: int, k: int) -> int
    decreases 12 - k,
{
    if k >= 12 {
        SIN_SCALE as int
    } else {
        SIN_SCALE as int - ((t * sine_poly(t, k + 1) / (SIN_SCALE as int)) / ((2 * k) * (2 * k
            + 1)))
    }
}

/// The quarter-wave sine magnitude at tick `i`: the angle `i / 65536` is
/// taken to sixty fractional bits, pushed through the series, and the
/// product is rounded to the nearest sixteen-bit fraction.
pub open spec fn sin_lut(i: int) -> int {
    let x = i * (SIN_TICK as int);
    let t = (x * x) / (SIN_SCALE as int);
    let s = (x * sine_poly(t, 1)) / (SIN_SCALE as int);
    (s + (SIN_HALF_TICK as int)) / (SIN_TICK as int)
}

/// The full-period sine of a raw angle: the angle is reduced modulo a full
/// turn into `[0, two pi)`, folded onto the first quarter by the half-turn
/// and quarter-turn reflections, looked up in the quarter wave - one whole
/// unit at the exact quarter-turn boundary - and negated in the second half
/// of the period.
pub open spec fn sin_spec(a: i32) -> i32 {
    let m = trem32(a, TWO_PI_RAW);
    let t0 = if m < 0 {
        (m + TWO_PI_RAW) as i32
    } else {
        m
    };
    if t0 >= PI_RAW {
        let t1 = (t0 - PI_RAW) as i32;
        let t2 = if t1 >= HALF_PI_RAW {
            (PI_RAW - t1) as i32
        } else {
            t1
        };
        (-(if t2 >= QUARTER_COUNT {
            0x1_0000
        } else {
            sin_lut(t2 as int)
        })) as i32
    } else {
        let t2 = if t0 >= HALF_PI_RAW {
            (PI_RAW - t0) as i32
        } else {
            t0
        };
        (if t2 >= QUARTER_COUNT {
            0x1_0000
        } else {
            sin_lut(t2 as int)
        }) as i32
    }
}

/// The cosine is the sine a quarter turn ahead, the step wrapping like the
/// 32-bit machine addition it is.
pub open spec fn cos_spec(a: i32) -> i32 {
    sin_spec(wadd(a, HALF_PI_RAW))
}

/// One truncating step of the series: `scale - ((t * acc) / scale) / d`.
fn sine_poly_step(t: u128, acc: u128, d: u128) -> (r: u128)
    requires
        t < 0x4000_0000_0000_0000,
        acc <= SIN_SCALE,
        6 <= d,
    ensures
        r as int == (SIN_SCALE as int) - (((t as int) * (acc as int) / (SIN_SCALE as int)) / (
        d as int)),
        r <= SIN_SCALE,
{
    proof {
        assert((t as int) * (acc as int) <= 0x4000_0000_0000_0000 * (acc as int))
            by (nonlinear_arith)
            requires
                0 <= t < 0x4000_0000_0000_0000,
                0 <= acc,
        ;
        assert(0x4000_0000_0000_0000 * (acc as int) <= 0x4000_0000_0000_0000 * (
        SIN_SCALE as int)) by (nonlinear_arith)
            requires
                acc <= SIN_SCALE,
        ;
        vstd::arithmetic::div_mod::lemma_div_is_ordered(
            (t as int) * (acc as int),
            4 * (SIN_SCALE as int) * (SIN_SCALE as int),
            SIN_SCALE as int,
        );
        vstd::arithmetic::div_mod::lemma_div_by_multiple(
            4 * (SIN_SCALE as int),
            SIN_SCALE as int,
        );
        vstd::arithmetic::div_mod::lemma_div_is_ordered(
            (t as int) * (acc as int) / (SIN_SCALE as int),
            4 * (SIN_SCALE as int),
            d as int,
        );
        vstd::arithmetic::div_mod::lemma_div_is_ordered_by_denominator(
            4 * (SIN_SCALE as int),
            6,
            d as int,
        );
    }
    let q = t * acc / SIN_SCALE / d;
    SIN_SCALE - q
}

/// The quarter-wave sine magnitude at tick `i`, evaluated on demand.
fn sin_lut_value(i: u32) -> (r: u32)
    requires
        i < QUARTER_COUNT as u32,
    ensures
        r as int == sin_lut(i as int),
        r <= 0x2_0000,
{
    let x: u128 = (i as u128) * SIN_TICK;
    proof {
        assert((x as int) * (x as int) < 0x4000_0000_0000_0000 * (SIN_SCALE as int))
            by (nonlinear_arith)
            requires
                0 <= x < 0x2000_0000_0000_0000,
        ;
        vstd::arithmetic::div_mod::lemma_div_is_ordered(
            (x as int) * (x as int),
            0x4000_0000_0000_0000 * (SIN_SCALE as int),
            SIN_SCALE as int,
        );
        vstd::arithmetic::div_mod::lemma_div_by_multiple(
            0x4000_0000_0000_0000,
            SIN_SCALE as int,
        );
    }
    let t: u128 = x * x / SIN_SCALE;
    assert(sine_poly(t as int, 12) == SIN_SCALE as int);
    let acc11 = sine_poly_step(t, SIN_SCALE, 506);
    assert(acc11 as int == sine_poly(t as int, 11));
    let acc10 = sine_poly_step(t, acc11, 420);
    assert(acc10 as int == sine_poly(t as int, 10));
    let acc9 = sine_poly_step(t, acc10, 342);
    assert(acc9 as int == sine_poly(t as int, 9));
    let acc8 = sine_poly_step(t, acc9, 272);
    assert(acc8 as int == sine_poly(t as int, 8));
    let acc7 = sine_poly_step(t, acc8, 210);
    assert(acc7 as int == sine_poly(t as int, 7));
    let acc6 = sine_poly_step(t, acc7, 156);
    assert(acc6 as int == sine_poly(t as int, 6));
    let acc5 = sine_poly_step(t, acc6, 110);
    assert(acc5 as int == sine_poly(t as int, 5));
    let acc4 = sine_poly_step(t, acc5, 72);
    assert(acc4 as int == sine_poly(t as int, 4));
    let acc3 = sine_poly_step(t, acc4, 42);
    assert(acc3 as int == sine_poly(t as int, 3));
    let acc2 = sine_poly_step(t, acc3, 20);
    assert(acc2 as int == sine_poly(t as int, 2));
    let acc1 = sine_poly_step(t, acc2, 6);
    assert(acc1 as int == sine_poly(t as int, 1));
    proof {
        assert((x as int) * (acc1 as int) <= 0x2000_0000_0000_0000 * (SIN_SCALE as int))
            by (nonlinear_arith)
            requires
                0 <= x < 0x2000_0000_0000_0000,
                0 <= acc1 <= SIN_SCALE,
        ;
        vstd::arithmetic::div_mod::lemma_div_is_ordered(
            (x as int) * (acc1 as int),
            0x2000_0000_0000_0000 * (SIN_SCALE as int),
            SIN_SCALE as int,
        );
        vstd::arithmetic::div_mod::lemma_div_by_multiple(
            0x2000_0000_0000_0000,
            SIN_SCALE as int,
        );
        vstd::arithmetic::div_mod::lemma_div_is_ordered(
            (x as int) * (acc1 as int) / (SIN_SCALE as int) + (SIN_HALF_TICK as int),
            0x2000_0000_0000_0000 + (SIN_HALF_TICK as int),
            SIN_TICK as int,
        );
    }
    let s: u128 = x * acc1 / SIN_SCALE;
    proof {
        assert((x as int) * (acc1 as int) <= (x as int) * (SIN_SCALE as int))
            by (nonlinear_arith)
            requires
                0 <= x,
                0 <= acc1 <= SIN_SCALE,
        ;
        vstd::arithmetic::div_mod::lemma_div_is_ordered(
            (x as int) * (acc1 as int),
            (x as int) * (SIN_SCALE as int),
            SIN_SCALE as int,
        );
        vstd::arithmetic::div_mod::lemma_div_by_multiple(x as int, SIN_SCALE as int);
        vstd::arithmetic::div_mod::lemma_div_is_ordered(
            (s as int) + (SIN_HALF_TICK as int),
            102943 * (SIN_TICK as int) + (SIN_HALF_TICK as int),
            SIN_TICK as int,
        );
        vstd::arithmetic::div_mod::lemma_fundamental_div_mod_converse_div(
            102943 * (SIN_TICK as int) + (SIN_HALF_TICK as int),
            SIN_TICK as int,
            102943,
            SIN_HALF_TICK as int,
        );
    }
    let rounded: u128 = (s + SIN_HALF_TICK) / SIN_TICK;
    rounded as u32
}

impl Fix16 {
    /// The fixed-point sine over the full period, by quadrant reduction onto
    /// the quarter wave.
    pub fn sin(self) -> (r: Fix16)
        ensures
            r.0 == sin_spec(self.0),
    {
        let mut temp_angle = self.0 % TWO_PI_RAW;
        if temp_angle < 0 {
            temp_angle = temp_angle + TWO_PI_RAW;
        }

        let out_val: i32;
        if temp_angle >= PI_RAW {
            temp_angle = temp_angle - PI_RAW;
            if temp_angle >= HALF_PI_RAW {
                temp_angle = PI_RAW - temp_angle;
            }
            out_val = -(if temp_angle >= QUARTER_COUNT {
                0x1_0000
            } else {
                sin_lut_value(temp_angle as u32) as i32
            });
        } else {
            if temp_angle >= HALF_PI_RAW {
                temp_angle = PI_RAW - temp_angle;
            }
            out_val = if temp_angle >= QUARTER_COUNT {
                0x1_0000
            } else {
                sin_lut_value(temp_angle as u32) as i32
            };
        }

        Fix16(out_val)
    }

    /// The fixed-point cosine: the sine a quarter turn ahead.
    pub fn cos(self) -> (r: Fix16)
        ensures
            r.0 == cos_spec(self.0),
    {
        Fix16(self.0.wrapping_add(HALF_PI_RAW)).sin()
    }

    /// The fixed-point tangent: the sine divided by the cosine with the
    /// saturating divide, so the value clamps instead of erring near the
    /// asymptotes.
    pub fn tan(self) -> (r: Fix16)
        ensures
            r.0 == {
                let s = sin_spec(self.0);
                let c = cos_spec(self.0);
                if div_engine(s, c).1 {
                    if (s > 0) == (c > 0) {
                        FIX16_MAX as int
                    } else {
                        FIX16_MIN as int
                    }
                } else {
                    div_engine(s, c).0 as int
                }
            },
    {
        self.sin().saturating_div(self.cos())
    }
}

} // verus!
