//! The relations the library promises between its policy variants: when no
//! overflow occurs the three policies agree with the exact result, the
//! detecting variants flag exactly the escapes from the representable range,
//! and a zero divisor yields the sentinel unflagged.

use vstd::prelude::*;

use crate::fix16::FIX16_ONE;
use crate::fix16::to_int_spec;
use crate::arith::add_overflows;
use crate::arith::sub_overflows;
use crate::arith::wadd;
use crate::arith::wsub;
use crate::mul::mul_overflowed;
use crate::mul::mul_product;
use crate::mul::mul_value;
use crate::mul::round_away;
use crate::div::div_engine;
use crate::div::div_kick;
use crate::div::div_loop;
use crate::div::div_strip;
use crate::div::clz32;
use crate::div::clz_rec;
use crate::div::budget_measure;
use crate::div::uabs32;
use crate::div::wneg32;
use vstd::arithmetic::power2::pow2;
use crate::sqrt::sqrt_engine;
use crate::sqrt::sqrt_pass;
use crate::sqrt::sqrt_probe;
use crate::sqrt::sqrt_transition;
use crate::sqrt::wadd32;
use crate::arith::trem32;
use crate::trig::sin_spec;
use crate::trig::TWO_PI_RAW;

verus! {

/// Scaling an integer up by one unit and rounding back down returns it, for
/// every integer whose scaled form and its rounding bias stay representable.
pub proof fn lemma_int_round_trip(n: i32)
    requires
        -0x7FFF <= n <= 0x7FFF,
    ensures
        to_int_spec(vstd::wrapping::i32_specs::wrapping_mul(n, FIX16_ONE)) == n,
{
    let raw = vstd::wrapping::i32_specs::wrapping_mul(n, FIX16_ONE);
    assert(raw == n * 0x1_0000);
    if n >= 0 {
        assert((n * 0x1_0000 + 0x8000) / 0x1_0000 == n) by (nonlinear_arith)
            requires
                0 <= n <= 0x7FFF,
        ;
    } else {
        assert((-(n * 0x1_0000 - 0x8000)) / 0x1_0000 == -n) by (nonlinear_arith)
            requires
                -0x7FFF <= n < 0,
        ;
    }
}

/// When the exact sum stays representable, the wrapping sum is the exact
/// sum and the detecting variant does not flag it; since the detecting
/// variant returns the wrapping sum in every case, the two variants agree
/// whenever the flag is clear.
pub proof fn lemma_add_exact_when_unflagged(a: i32, b: i32)
    requires
        i32::MIN <= a + b <= i32::MAX,
    ensures
        !add_overflows(a, b),
        wadd(a, b) == a + b,
{
}

/// When the exact difference stays representable, the wrapping difference
/// is the exact difference and the detecting variant does not flag it.
pub proof fn lemma_sub_exact_when_unflagged(a: i32, b: i32)
    requires
        i32::MIN <= a - b <= i32::MAX,
    ensures
        !sub_overflows(a, b),
        wsub(a, b) == a - b,
{
}

/// The detecting add flags exactly the sums that escape the representable
/// range, and its value is the wrapping operator's value in every case.
pub proof fn lemma_add_flag_iff_escape(a: i32, b: i32)
    ensures
        add_overflows(a, b) <==> !(i32::MIN <= a + b <= i32::MAX),
        wadd(a, b) == a + b || add_overflows(a, b),
{
}

/// The detecting subtract flags exactly the differences that escape the
/// representable range, and its value is the wrapping operator's value in
/// every case.
pub proof fn lemma_sub_flag_iff_escape(a: i32, b: i32)
    ensures
        sub_overflows(a, b) <==> !(i32::MIN <= a - b <= i32::MAX),
        wsub(a, b) == a - b || sub_overflows(a, b),
{
}

/// The multiply flag is set exactly when the widened product escapes the
/// range that survives the final sixteen-bit shift back into 32 bits; when
/// the flag is clear, the detecting variant and the wrapping operator both
/// return the same rounded product.
pub proof fn lemma_mul_flag_iff_escape(a: i32, b: i32)
    ensures
        mul_overflowed(a, b) <==> !(-0x8000_0000_0000 <= (a as int) * (b as int)
            < 0x8000_0000_0000),
{
    let p = mul_product(a, b);
    assert(-0x4000_0000_0000_0000 <= (a as int) * (b as int) <= 0x4000_0000_0000_0000)
        by (nonlinear_arith)
        requires
            -0x8000_0000 <= a <= 0x7FFF_FFFF,
            -0x8000_0000 <= b <= 0x7FFF_FFFF,
    ;
    assert(p as int == (a as int) * (b as int));
    assert((p >= 0 ==> (((p >> 47) as u32) != 0 <==> p >= 0x8000_0000_0000)) && (p < 0 ==> ((!((p
        >> 47) as u32)) != 0 <==> p < -0x8000_0000_0000))) by (bit_vector);
}

/// Whenever the detecting add leaves the flag clear, its value - the
/// wrapping sum, which the detecting variant returns in every case - is the
/// exact sum: the round trip through the detecting variant loses nothing.
pub proof fn lemma_detecting_add_round_trip(a: i32, b: i32)
    requires
        !add_overflows(a, b),
    ensures
        wadd(a, b) == a + b,
{
}

/// When the multiply flag is clear, the value is the widened product
/// rounded to the nearest sixteen-bit step, ties away from zero, wrapped
/// into 32 bits (the wrap matters only within half a step of the flag's
/// upper boundary).
pub proof fn lemma_mul_value_rounds(a: i32, b: i32)
    requires
        !mul_overflowed(a, b),
    ensures
        mul_value(a, b) == vstd::wrapping::i32_specs::signed_crop(
            round_away(mul_product(a, b) as int, 0x1_0000),
        ),
{
    let p = mul_product(a, b);
    lemma_mul_flag_iff_escape(a, b);
    assert(-0x8000_0000_0000 <= p < 0x8000_0000_0000);
    if p >= 0 {
        assert(((p >> 16) as i32) as int + (((p & 0x8000) >> 15) as i32) as int == (p + 0x8000)
            / 0x1_0000) by (bit_vector)
            requires
                0 <= p < 0x8000_0000_0000,
        ;
        assert(0 <= (p + 0x8000) / 0x1_0000 <= 0x8000_0000) by {
            vstd::arithmetic::div_mod::lemma_div_is_ordered(
                (p + 0x8000) as int,
                0x8000_0000_8000,
                0x1_0000,
            );
        };
    } else if p == -0x8000_0000_0000 {
        let qq: i64 = (p - 1) as i64;
        assert(((qq >> 16) as i32) == 0x7FFF_FFFF && (((qq & 0x8000) >> 15) as i32) == 1)
            by (bit_vector)
            requires
                p == -0x8000_0000_0000 && qq == (p - 1) as i64,
        ;
        assert((0x8000_0000_8000 as int) / (0x1_0000 as int) == 0x8000_0000);
    } else {
        let qq: i64 = (p - 1) as i64;
        assert(((qq >> 16) as i32) as int + (((qq & 0x8000) >> 15) as i32) as int == (-((-p
            + 0x8000) / 0x1_0000))) by (bit_vector)
            requires
                -0x8000_0000_0000 < p < 0,
                qq == (p - 1) as i64,
        ;
        assert(0 <= (-p + 0x8000) / 0x1_0000 <= 0x8000_0000) by {
            vstd::arithmetic::div_mod::lemma_div_pos_is_pos((-p + 0x8000) as int, 0x1_0000);
            vstd::arithmetic::div_mod::lemma_div_is_ordered(
                (-p + 0x8000) as int,
                0x8000_0000_8000,
                0x1_0000,
            );
        };
    }
}

/// A zero divisor returns the sentinel and is never flagged as overflow,
/// whatever the dividend.
pub proof fn lemma_div_by_zero(a: i32)
    ensures
        div_engine(a, 0) == (i32::MIN, false),
{
}

/// A zero dividend divides to zero under every nonzero divisor, with the
/// flag clear.
pub proof fn lemma_div_zero_dividend(b: i32)
    requires
        b != 0,
    ensures
        div_engine(0, b) == (0i32, false),
{
    let div0 = crate::div::uabs32(b);
    assert(0u32 / (((div0 >> 17) + 1) as u32) == 0 && ((0int * (div0 as int)) as u64) >> 17
        == 0) by (bit_vector);
    assert(crate::div::div_kick(0, div0) == (0u32, 0u32));
    let stripped = crate::div::div_strip(div0, 17);
    assert(crate::div::div_loop(0, stripped.0, 0, stripped.1, false) == (0u32, false));
    assert((1u32 as i32) >> 1u32 == 0) by (bit_vector);
}

/// The square root follows the sign convention of the input: negating the
/// input negates the root of the magnitude.
pub proof fn lemma_sqrt_odd(a: i32)
    requires
        0 < a,
    ensures
        sqrt_engine((-a) as i32) == wneg32(sqrt_engine(a)),
{
}

/// The sine is periodic: a full turn ahead, the value repeats, whenever
/// the stepped angle is still representable.
pub proof fn lemma_sin_periodic(a: i32)
    requires
        a + TWO_PI_RAW <= i32::MAX,
    ensures
        sin_spec((a + TWO_PI_RAW) as i32) == sin_spec(a),
{
    let p = TWO_PI_RAW as int;
    let b: i32 = (a + TWO_PI_RAW) as i32;
    vstd::arithmetic::div_mod::lemma_mod_multiples_vanish(1, a as int, p);
    vstd::arithmetic::div_mod::lemma_mod_multiples_vanish(1, -(a as int), p);
    vstd::arithmetic::div_mod::lemma_mod_multiples_vanish(-1, -(a as int), p);
    if a >= 0 {
        assert(trem32(b, TWO_PI_RAW) == trem32(a, TWO_PI_RAW));
    } else if a as int + p < 0 {
        assert((-(a as int) - p) % p == (-(a as int)) % p);
        assert(trem32(b, TWO_PI_RAW) == trem32(a, TWO_PI_RAW));
    } else {
        assert(0 <= a + p < p);
        if a as int == -p {
            vstd::arithmetic::div_mod::lemma_mod_self_0(p);
            vstd::arithmetic::div_mod::lemma_small_mod(0, p as nat);
        } else {
            vstd::arithmetic::div_mod::lemma_small_mod((-(a as int)) as nat, p as nat);
            vstd::arithmetic::div_mod::lemma_small_mod((a as int + p) as nat, p as nat);
        }
    }
}


/// The quotient the remaining budget still owes: the remainder scaled up by
/// the budget, divided out.
spec fn remaining_quotient(rem: u32, div: u32, bp: i32) -> int {
    if bp < 0 {
        0
    } else {
        ((rem as int) * (pow2(bp as nat) as int)) / (div as int)
    }
}

/// The doubling count never passes the word width, and the doubled probe
/// stays inside it: `y * 2^(clz(y) - n)` fits 32 bits.
proof fn lemma_clz_rec_bound(y: u32, n: u32)
    requires
        n <= 32,
    ensures
        n <= clz_rec(y, n) <= 32,
        (y as int) * (pow2((clz_rec(y, n) - n) as nat) as int) < 0x1_0000_0000,
    decreases 32 - n,
{
    vstd::arithmetic::power2::lemma2_to64();
    if n >= 32 {
        assert((y as int) * (pow2(0) as int) < 0x1_0000_0000);
    } else if y >= 0x8000_0000 {
        assert((y as int) * (pow2(0) as int) < 0x1_0000_0000);
    } else {
        lemma_clz_rec_bound((2 * y) as u32, (n + 1) as u32);
        let c = clz_rec(y, n);
        assert(c == clz_rec((2 * y) as u32, (n + 1) as u32));
        vstd::arithmetic::power2::lemma_pow2_unfold((c - n) as nat);
        assert((y as int) * (2 * (pow2((c - n - 1) as nat) as int)) == ((2 * y) as u32 as int) * (
        pow2((c - n - 1) as nat) as int)) by (nonlinear_arith)
            requires
                0 <= y < 0x8000_0000,
        ;
        assert((y as int) * (pow2((c - n) as nat) as int) == ((2 * y) as u32 as int) * (pow2((c - n
            - 1) as nat) as int)) by (nonlinear_arith)
            requires
                0 <= y < 0x8000_0000,
                (pow2((c - n) as nat) as int) == 2 * (pow2((c - n - 1) as nat) as int),
        ;
    }
}

/// Once the flag is set, the remaining rounds keep it set.
proof fn lemma_div_loop_flagged(rem: u32, div: u32, q: u32, bp: i32)
    ensures
        div_loop(rem, div, q, bp, true).1 == true,
    decreases budget_measure(bp),
{
    if !(rem == 0 || bp < 0) {
        let lz = clz32(rem);
        let shift = if lz < bp as u32 {
            lz
        } else {
            bp as u32
        };
        let rem_a = rem << shift;
        let bp_a = (bp - shift) as i32;
        let chunk = (rem_a / div) as u32;
        let rem_b = (rem_a % div) as u32;
        let q2 = vstd::wrapping::u32_specs::wrapping_add(q, chunk << bp_a as u32);
        let rem_c = rem_b << 1u32;
        lemma_div_loop_flagged(rem_c, div, q2, (bp_a - 1) as i32);
    }
}

/// Stripping factors of sixteen from the divisor, with the budget lowered in
/// step, leaves the owed quotient unchanged.
proof fn lemma_div_strip_exact(rem: u32, div: u32, bp: i32)
    requires
        1 <= div <= 0x8000_0000,
        0 <= bp,
    ensures
        ({
            let s = div_strip(div, bp);
            &&& 1 <= s.0 <= 0x8000_0000
            &&& 0 <= s.1 <= bp
            &&& remaining_quotient(rem, s.0, s.1) == remaining_quotient(rem, div, bp)
        }),
    decreases budget_measure(bp),
{
    vstd::arithmetic::power2::lemma2_to64();
    if div & 0xF == 0 && bp >= 4 {
        assert(div >= 16 && div >> 4 >= 1 && div >> 4 <= 0x800_0000 && div as int == 16 * ((div
            >> 4) as int)) by (bit_vector)
            requires
                1 <= div <= 0x8000_0000 && div & 0xF == 0,
        ;
        lemma_div_strip_exact(rem, div >> 4, (bp - 4) as i32);
        let d2 = (div >> 4) as int;
        let top = (rem as int) * (pow2(bp as nat) as int);
        let low = (rem as int) * (pow2((bp - 4) as nat) as int);
        vstd::arithmetic::power2::lemma_pow2_adds((bp - 4) as nat, 4);
        assert(top == low * 16) by (nonlinear_arith)
            requires
                (pow2(bp as nat) as int) == (pow2((bp - 4) as nat) as int) * 16,
                top == (rem as int) * (pow2(bp as nat) as int),
                low == (rem as int) * (pow2((bp - 4) as nat) as int),
        ;
        vstd::arithmetic::div_mod::lemma_div_denominator(top, 16, d2);
        vstd::arithmetic::div_mod::lemma_div_multiples_vanish(low, 16);
        assert(top / (16 * d2) == low / d2);
        assert(16 * d2 == div as int);
    }
}

/// When no round flags an escape, the restoring rounds pay out exactly the
/// owed quotient: the gathered word is the scaled division, provided the
/// total stays inside the word.
proof fn lemma_div_loop_exact(rem: u32, div: u32, q: u32, bp: i32)
    requires
        1 <= div <= 0x8000_0000,
        bp <= 17,
        bp < 0 ==> rem < 2 * div,
        (q as int) + remaining_quotient(rem, div, bp) < 0x1_0000_0000,
    ensures
        div_loop(rem, div, q, bp, false).1 == false ==> (div_loop(rem, div, q, bp, false).0 as int)
            == (q as int) + remaining_quotient(rem, div, bp),
    decreases budget_measure(bp),
{
    vstd::arithmetic::power2::lemma2_to64();
    if rem == 0 || bp < 0 {
        if rem == 0 && bp >= 0 {
            vstd::arithmetic::power2::lemma_pow2_pos(bp as nat);
        }
    } else {
        let lz = clz32(rem);
        let shift = if lz < bp as u32 {
            lz
        } else {
            bp as u32
        };
        let rem_a = rem << shift;
        let bp_a = (bp - shift) as i32;
        let chunk = (rem_a / div) as u32;
        let rem_b = (rem_a % div) as u32;
        let q2 = vstd::wrapping::u32_specs::wrapping_add(q, chunk << bp_a as u32);
        let ov2 = (chunk & !(u32::MAX >> bp_a as u32)) != 0;
        let rem_c = rem_b << 1u32;

        // The pushed-up remainder is the exact product.
        lemma_clz_rec_bound(rem, 0);
        assert(pow2(lz as nat) >= 1) by {
            vstd::arithmetic::power2::lemma_pow2_pos(lz as nat);
        };
        assert(lz <= 31) by {
            if lz >= 32 {
                vstd::arithmetic::mul::lemma_mul_inequality(1, rem as int, pow2(lz as nat) as int);
                if lz > 32 {
                    vstd::arithmetic::power2::lemma_pow2_strictly_increases(32, lz as nat);
                }
            }
        };
        if shift < lz {
            vstd::arithmetic::power2::lemma_pow2_strictly_increases(shift as nat, lz as nat);
        }
        assert((rem as int) * (pow2(lz as nat) as int) < 0x1_0000_0000);
        assert((rem as int) * (pow2(shift as nat) as int) <= (rem as int) * (pow2(
            lz as nat,
        ) as int)) by (nonlinear_arith)
            requires
                0 <= rem,
                (pow2(shift as nat) as int) <= (pow2(lz as nat) as int),
        ;
        assert((rem as int) * (pow2(shift as nat) as int) < 0x1_0000_0000);
        vstd::bits::lemma_u32_shl_is_mul(rem, shift);
        assert(rem_a as int == (rem as int) * (pow2(shift as nat) as int));

        // The owed quotient survives the push.
        vstd::arithmetic::power2::lemma_pow2_adds(shift as nat, bp_a as nat);
        assert((rem as int) * (pow2(bp as nat) as int) == (rem_a as int) * (pow2(
            bp_a as nat,
        ) as int)) by (nonlinear_arith)
            requires
                (pow2(bp as nat) as int) == (pow2(shift as nat) as int) * (pow2(
                    bp_a as nat,
                ) as int),
                rem_a as int == (rem as int) * (pow2(shift as nat) as int),
        ;

        // One native division contributes the chunk at its position.
        let pp = pow2(bp_a as nat) as int;
        vstd::arithmetic::div_mod::lemma_fundamental_div_mod(rem_a as int, div as int);
        vstd::arithmetic::div_mod::lemma_fundamental_div_mod(
            (rem_b as int) * pp,
            div as int,
        );
        assert((rem_a as int) * pp == (div as int) * ((chunk as int) * pp + ((rem_b as int) * pp)
            / (div as int)) + ((rem_b as int) * pp) % (div as int)) by (nonlinear_arith)
            requires
                rem_a as int == (div as int) * (chunk as int) + (rem_b as int),
                (rem_b as int) * pp == (div as int) * (((rem_b as int) * pp) / (div as int)) + ((
                rem_b as int) * pp) % (div as int),
        ;
        vstd::arithmetic::div_mod::lemma_fundamental_div_mod_converse_div(
            (rem_a as int) * pp,
            div as int,
            (chunk as int) * pp + ((rem_b as int) * pp) / (div as int),
            ((rem_b as int) * pp) % (div as int),
        );
        assert(remaining_quotient(rem, div, bp) == (chunk as int) * pp + ((rem_b as int) * pp)
            / (div as int));

        // The tail of the owed quotient is what the doubled remainder owes.
        vstd::arithmetic::div_mod::lemma_mod_division_less_than_divisor(rem_a as int, div as int);
        assert(rem_b < div);
        vstd::bits::lemma_u32_shl_is_mul(rem_b, 1);
        assert(rem_c as int == 2 * (rem_b as int));
        if bp_a >= 1 {
            vstd::arithmetic::power2::lemma_pow2_unfold(bp_a as nat);
            assert((rem_b as int) * pp == (rem_c as int) * (pow2((bp_a - 1) as nat) as int))
                by (nonlinear_arith)
                requires
                    pp == 2 * (pow2((bp_a - 1) as nat) as int),
                    rem_c as int == 2 * (rem_b as int),
            ;
        } else {
            assert(pp == 1);
            assert(0 <= (rem_b as int) * pp < div as int) by (nonlinear_arith)
                requires
                    pp == 1,
                    0 <= rem_b,
                    (rem_b as int) < (div as int),
            ;
            vstd::arithmetic::div_mod::lemma_basic_div((rem_b as int) * pp, div as int);
        }
        assert(((rem_b as int) * pp) / (div as int) == remaining_quotient(
            rem_c,
            div,
            (bp_a - 1) as i32,
        ));
        assert(((rem_b as int) * pp) / (div as int) >= 0) by {
            vstd::arithmetic::mul::lemma_mul_nonnegative((rem_b as int), pp);
            vstd::arithmetic::div_mod::lemma_div_pos_is_pos((rem_b as int) * pp, div as int);
        };

        if ov2 {
            lemma_div_loop_flagged(rem_c, div, q2, (bp_a - 1) as i32);
        } else {
            // The chunk fits its position, so the accumulation is exact.
            let bpu = bp_a as u32;
            assert(chunk <= u32::MAX >> bpu) by (bit_vector)
                requires
                    chunk & !(u32::MAX >> bpu) == 0,
            ;
            vstd::bits::lemma_u32_shr_is_div(u32::MAX, bpu);
            vstd::arithmetic::power2::lemma_pow2_adds(bpu as nat, (32 - bpu) as nat);
            vstd::arithmetic::power2::lemma_pow2_pos(bpu as nat);
            assert(bpu as nat == bp_a as nat);
            assert((pow2(bpu as nat) as int) * (pow2((32 - bpu) as nat) as int) == 0x1_0000_0000);
            assert(u32::MAX as int == (pow2(bpu as nat) as int) * ((pow2((32 - bpu) as nat) as int)
                - 1) + ((pow2(bpu as nat) as int) - 1)) by (nonlinear_arith)
                requires
                    (pow2(bpu as nat) as int) * (pow2((32 - bpu) as nat) as int) == 0x1_0000_0000,
            ;
            vstd::arithmetic::div_mod::lemma_fundamental_div_mod_converse_div(
                u32::MAX as int,
                pow2(bpu as nat) as int,
                (pow2((32 - bpu) as nat) as int) - 1,
                (pow2(bpu as nat) as int) - 1,
            );
            assert((u32::MAX >> bpu) as int == (pow2((32 - bpu) as nat) as int) - 1);
            assert((chunk as int) * pp <= 0x1_0000_0000 - pp) by (nonlinear_arith)
                requires
                    chunk as int <= (pow2((32 - bpu) as nat) as int) - 1,
                    pp == pow2(bpu as nat) as int,
                    pp >= 1,
                    (pow2(bpu as nat) as int) * (pow2((32 - bpu) as nat) as int) == 0x1_0000_0000,
            ;
            vstd::bits::lemma_u32_shl_is_mul(chunk, bpu);
            assert(q2 as int == (q as int) + (chunk as int) * pp);
            lemma_div_loop_exact(rem_c, div, q2, (bp_a - 1) as i32);
        }
    }
}

/// For an unseeded divisor - one whose top twelve bits are clear - an
/// unflagged divide is the scaled quotient `|a| * 2^17 / |b|`, rounded to
/// nearest on its extra precision bit, with the sign of `a ^ b` restored,
/// whenever that quotient stays below the word's edge.
pub proof fn lemma_div_rounds(a: i32, b: i32)
    requires
        b != 0,
        uabs32(b) & 0xFFF0_0000 == 0,
        div_engine(a, b).1 == false,
        ((uabs32(a) as int) * 0x2_0000) / (uabs32(b) as int) < 0x7FFF_FFFF,
    ensures
        div_engine(a, b).0 as int == ({
            let fq = ((uabs32(a) as int) * 0x2_0000) / (uabs32(b) as int);
            if (a < 0) != (b < 0) {
                -((fq + 1) / 2)
            } else {
                (fq + 1) / 2
            }
        }),
{
    vstd::arithmetic::power2::lemma2_to64();
    let nn = uabs32(a);
    let dd = uabs32(b);
    assert(1 <= dd <= 0x8000_0000);
    assert(div_kick(nn, dd) == (0u32, nn));
    lemma_div_strip_exact(nn, dd, 17);
    let s = div_strip(dd, 17);
    let fq = ((nn as int) * 0x2_0000) / (dd as int);
    assert(remaining_quotient(nn, dd, 17) == fq);
    assert(fq >= 0) by {
        vstd::arithmetic::mul::lemma_mul_nonnegative(nn as int, 0x2_0000);
        vstd::arithmetic::div_mod::lemma_div_pos_is_pos((nn as int) * 0x2_0000, dd as int);
    };
    lemma_div_loop_exact(nn, s.0, 0, s.1);
    let looped = div_loop(nn, s.0, 0, s.1, false);
    assert(looped.1 == false);
    assert(looped.0 as int == fq);
    let q = vstd::wrapping::u32_specs::wrapping_add(looped.0, 1);
    assert(q as int == fq + 1);
    let res = (q as i32) >> 1u32;
    assert(q < 0x8000_0000 ==> (((q as i32) >> 1u32) as int == (q as int) / 2 && ((q as i32)
        >> 1u32) >= 0)) by (bit_vector);
    assert(res as int == (fq + 1) / 2);
    assert((((a as u32) ^ (b as u32)) & 0x8000_0000 != 0) <==> ((a < 0) != (b < 0)))
        by (bit_vector);
}


/// Each digit-extraction round halves the gathered result before adding the
/// probe back, so a whole pass shrinks it toward twice the starting probe.
proof fn lemma_sqrt_pass_shrinks(num: u32, res: u32, bit: u32)
    requires
        bit <= 0x4000_0000,
    ensures
        bit == 0 ==> sqrt_pass(num, res, bit).1 == res,
        bit >= 1 ==> (sqrt_pass(num, res, bit).1 as int) <= (res as int) / 2 + 2 * (bit as int),
    decreases bit,
{
    if bit >= 1 {
        let cand = wadd32(res, bit);
        let r2: u32 = if num >= cand {
            wadd32(res / 2, bit)
        } else {
            res / 2
        };
        assert(r2 as int <= (res as int) / 2 + (bit as int));
        if num >= cand {
            lemma_sqrt_pass_shrinks((num - cand) as u32, r2, bit / 4);
        } else {
            lemma_sqrt_pass_shrinks(num, r2, bit / 4);
        }
        if bit / 4 >= 1 {
            assert((r2 as int) / 2 <= ((res as int) / 2 + (bit as int)) / 2) by {
                vstd::arithmetic::div_mod::lemma_div_is_ordered(
                    r2 as int,
                    (res as int) / 2 + (bit as int),
                    2,
                );
            };
            assert(((res as int) / 2 + (bit as int)) / 2 <= (res as int) / 4 + (bit as int) / 2
                + 1) by {
                vstd::arithmetic::div_mod::lemma_fundamental_div_mod(res as int, 2);
                vstd::arithmetic::div_mod::lemma_fundamental_div_mod(bit as int, 2);
                vstd::arithmetic::div_mod::lemma_fundamental_div_mod(
                    (res as int) / 2 + (bit as int),
                    2,
                );
                vstd::arithmetic::div_mod::lemma_div_is_ordered(
                    (res as int) / 2 + (bit as int),
                    2 * ((res as int) / 4 + (bit as int) / 2 + 1),
                    2,
                );
                vstd::arithmetic::div_mod::lemma_div_multiples_vanish(
                    (res as int) / 4 + (bit as int) / 2 + 1,
                    2,
                );
                vstd::arithmetic::div_mod::lemma_div_denominator(res as int, 2, 2);
            };
            assert((res as int) / 4 <= (res as int) / 2) by {
                vstd::arithmetic::div_mod::lemma_div_denominator(res as int, 2, 2);
                vstd::arithmetic::div_mod::lemma_div_pos_is_pos((res as int) / 2, 2);
                vstd::arithmetic::div_mod::lemma_fundamental_div_mod((res as int) / 2, 2);
            };
        }
    }
}

/// The root's magnitude always fits below the sign bit, so the result
/// carries the sign of the input: nonnegative inputs give nonnegative
/// roots, negative inputs the negated magnitude.
pub proof fn lemma_sqrt_sign(a: i32)
    ensures
        a >= 0 ==> sqrt_engine(a) >= 0,
        a < 0 ==> sqrt_engine(a) <= 0,
{
    let num = uabs32(a);
    let start: u32 = if num & 0xFFF0_0000 != 0 {
        0x4000_0000
    } else {
        0x4_0000
    };
    let first = sqrt_pass(num, 0, sqrt_probe(start, num));
    let rescaled = sqrt_transition(first.0, first.1);
    let n0 = rescaled.0;
    let r0 = rescaled.1;

    // One round by hand, then the shrinking bound on the rest of the pass.
    let cand = wadd32(r0, 0x4000);
    let r1: u32 = if n0 >= cand {
        wadd32(r0 / 2, 0x4000)
    } else {
        r0 / 2
    };
    assert(r1 as int <= (r0 as int) / 2 + 0x4000);
    if n0 >= cand {
        lemma_sqrt_pass_shrinks((n0 - cand) as u32, r1, 0x1000);
    } else {
        lemma_sqrt_pass_shrinks(n0, r1, 0x1000);
    }
    let second = sqrt_pass(n0, r0, 0x4000);
    assert(second.1 as int <= (r1 as int) / 2 + 0x2000);
    assert((r1 as int) / 2 <= ((r0 as int) / 2 + 0x4000) / 2) by {
        vstd::arithmetic::div_mod::lemma_div_is_ordered(
            r1 as int,
            (r0 as int) / 2 + 0x4000,
            2,
        );
    };
    assert(((r0 as int) / 2 + 0x4000) / 2 <= 0x4000_3FFF) by {
        vstd::arithmetic::div_mod::lemma_div_is_ordered(
            (r0 as int) / 2 + 0x4000,
            0x8000_7FFF,
            2,
        );
    };
    assert(second.1 <= 0x4000_5FFF);
    let rounded = if second.0 > second.1 {
        wadd32(second.1, 1)
    } else {
        second.1
    };
    assert(rounded <= 0x4000_6000);
    assert(rounded as i32 >= 0);
}


/// Whether some base-4 probe at or below the given rank starts the digit
/// extraction: a power of four not above the input, with the next one above
/// exceeding it.
spec fn probe_ok(b: u32, num: u32, j0: nat) -> bool {
    exists|k: nat|
        k <= j0 && (b as int) == #[trigger] (pow2(2 * k) as int) && b <= num && (num as int) < 4
            * (pow2(2 * k) as int)
}

/// Lowering the probe by base-4 steps lands on the highest power of four
/// not above a nonzero input.
proof fn lemma_sqrt_probe_ok(bit0: u32, num: u32, j0: nat)
    requires
        (bit0 as int) == pow2(2 * j0),
        (num as int) < 4 * (bit0 as int),
    ensures
        num >= 1 ==> probe_ok(sqrt_probe(bit0, num), num, j0),
    decreases j0,
{
    vstd::arithmetic::power2::lemma2_to64();
    if bit0 > num {
        if j0 >= 1 {
            vstd::arithmetic::power2::lemma_pow2_adds(2 * (j0 - 1) as nat, 2);
            assert((bit0 / 4) as int == pow2(2 * ((j0 - 1) as nat))) by {
                vstd::arithmetic::div_mod::lemma_div_multiples_vanish(
                    pow2(2 * ((j0 - 1) as nat)) as int,
                    4,
                );
            };
            lemma_sqrt_probe_ok(bit0 / 4, num, (j0 - 1) as nat);
            assert(probe_ok(sqrt_probe(bit0, num), num, (j0 - 1) as nat) ==> probe_ok(
                sqrt_probe(bit0, num),
                num,
                j0,
            ));
        } else {
            assert(num == 0);
        }
    } else {
        if num >= 1 {
            assert((sqrt_probe(bit0, num) as int) == pow2(2 * j0));
        }
    }
}

/// The digit-extraction pass is exact: starting from a partial root `r`
/// whose square has been taken out of the remainder, with the probe rank
/// still open, it finishes with the floor square root of the modeled value
/// and the matching remainder.
proof fn lemma_sqrt_pass_exact(num: u32, res: u32, bit: u32, r: int, v: int, k: nat)
    requires
        k <= 15,
        (bit as int) == pow2(2 * k),
        r >= 0,
        (res as int) == r * (pow2(k + 1) as int),
        v == (num as int) + r * r,
        v < (r + (pow2(k + 1) as int)) * (r + (pow2(k + 1) as int)),
        (res as int) + (bit as int) < 0x1_0000_0000,
    ensures
        ({
            let out = sqrt_pass(num, res, bit);
            &&& (out.1 as int) * (out.1 as int) <= v
            &&& v < ((out.1 as int) + 1) * ((out.1 as int) + 1)
            &&& (out.0 as int) == v - (out.1 as int) * (out.1 as int)
        }),
    decreases k,
{
    vstd::arithmetic::power2::lemma2_to64();
    let pk = pow2(k) as int;
    let p1 = pow2(k + 1) as int;
    vstd::arithmetic::power2::lemma_pow2_unfold(k + 1);
    assert(p1 == 2 * pk);
    vstd::arithmetic::power2::lemma_pow2_adds(k, k);
    assert((bit as int) == pk * pk);
    vstd::arithmetic::power2::lemma_pow2_pos(k);

    let cand = wadd32(res, bit);
    assert(cand as int == (res as int) + (bit as int));
    assert((num >= cand) <==> (v >= (r + pk) * (r + pk))) by (nonlinear_arith)
        requires
            v == (num as int) + r * r,
            cand as int == r * (2 * pk) + pk * pk,
            p1 == 2 * pk,
            (res as int) == r * p1,
            (bit as int) == pk * pk,
    ;
    assert((res as int) / 2 == r * pk) by {
        vstd::arithmetic::div_mod::lemma_div_multiples_vanish(r * pk, 2);
        assert(r * p1 == (r * pk) * 2) by (nonlinear_arith)
            requires
                p1 == 2 * pk,
        ;
    };

    let r2: int = if num >= cand {
        r + pk
    } else {
        r
    };
    let res2: u32 = if num >= cand {
        wadd32(res / 2, bit)
    } else {
        res / 2
    };
    let num2: u32 = if num >= cand {
        (num - cand) as u32
    } else {
        num
    };
    assert(res2 as int == r2 * pk) by (nonlinear_arith)
        requires
            res2 as int == (if num >= cand {
                r * pk + pk * pk
            } else {
                r * pk
            }),
            r2 == (if num >= cand {
                r + pk
            } else {
                r
            }),
    ;
    assert(v == (num2 as int) + r2 * r2) by (nonlinear_arith)
        requires
            v == (num as int) + r * r,
            num2 as int == (if num >= cand {
                (num as int) - (r * (2 * pk) + pk * pk)
            } else {
                num as int
            }),
            r2 == (if num >= cand {
                r + pk
            } else {
                r
            }),
            p1 == 2 * pk,
    ;
    assert(v < (r2 + pk) * (r2 + pk)) by (nonlinear_arith)
        requires
            (if num >= cand {
                v < (r + 2 * pk) * (r + 2 * pk)
            } else {
                v < (r + pk) * (r + pk)
            }),
            r2 == (if num >= cand {
                r + pk
            } else {
                r
            }),
    ;

    if k == 0 {
        assert(sqrt_pass(num2, res2, 0) == (num2, res2));
        assert(sqrt_pass(num, res, bit) == (num2, res2));
        assert(res2 as int == r2);
        assert(r2 * r2 <= v);
        assert(v < (r2 + 1) * (r2 + 1));
    } else {
        vstd::arithmetic::power2::lemma_pow2_adds(2 * ((k - 1) as nat), 2);
        assert((bit / 4) as int == pow2(2 * ((k - 1) as nat))) by {
            vstd::arithmetic::div_mod::lemma_div_multiples_vanish(
                pow2(2 * ((k - 1) as nat)) as int,
                4,
            );
        };
        assert((res2 as int) + ((bit / 4) as int) < 0x1_0000_0000) by {
            vstd::arithmetic::div_mod::lemma_div_is_ordered(bit as int, bit as int, 4);
        };
        lemma_sqrt_pass_exact(num2, res2, bit / 4, r2, v, (k - 1) as nat);
        assert(sqrt_pass(num, res, bit) == sqrt_pass(num2, res2, bit / 4));
    }
}

/// The probe of a zero input collapses to zero.
proof fn lemma_sqrt_probe_of_zero(bit: u32)
    ensures
        sqrt_probe(bit, 0) == 0,
    decreases bit,
{
    if bit > 0 {
        lemma_sqrt_probe_of_zero(bit / 4);
    }
}

/// On inputs whose integer pass leaves a small remainder, the square root
/// is exactly the rounded-to-nearest integer root of the magnitude at
/// thirty-two fractional bits: the floor root, plus one when the remainder
/// exceeds it.
#[verifier::rlimit(80)]
pub proof fn lemma_sqrt_rounds(a: i32)
    requires
        ({
            let num = uabs32(a);
            let start: u32 = if num & 0xFFF0_0000 != 0 {
                0x4000_0000
            } else {
                0x4_0000
            };
            sqrt_pass(num, 0, sqrt_probe(start, num)).0 <= 0xFFFF
        }),
    ensures
        ({
            let v = (uabs32(a) as int) * 0x1_0000;
            let magnitude = if a < 0 {
                -(sqrt_engine(a) as int)
            } else {
                sqrt_engine(a) as int
            };
            exists|root: int|
                {
                    &&& root >= 0
                    &&& #[trigger] (root * root) <= v
                    &&& v < (root + 1) * (root + 1)
                    &&& magnitude == root + (if v - root * root > root {
                        1int
                    } else {
                        0int
                    })
                }
        }),
{
    vstd::arithmetic::power2::lemma2_to64();
    let num = uabs32(a);
    let start: u32 = if num & 0xFFF0_0000 != 0 {
        0x4000_0000
    } else {
        0x4_0000
    };
    let b1 = sqrt_probe(start, num);
    let first = sqrt_pass(num, 0, b1);
    let v = (num as int) * 0x1_0000;

    let r1: int;
    if num == 0 {
        lemma_sqrt_probe_of_zero(start);
        assert(first == (0u32, 0u32));
        r1 = 0;
        assert(r1 * r1 == 0 && (r1 + 1) * (r1 + 1) == 1) by (nonlinear_arith)
            requires
                r1 == 0,
        ;
        assert(r1 * r1 <= (num as int) && (num as int) < (r1 + 1) * (r1 + 1) && (first.0 as int)
            == (num as int) - r1 * r1 && r1 >= 0);
    } else {
        if num & 0xFFF0_0000 != 0 {
            assert(num >= 0x0010_0000 && (num as int) < 4 * 0x4000_0000) by (bit_vector)
                requires
                    num & 0xFFF0_0000 != 0,
            ;
            lemma_sqrt_probe_ok(start, num, 15);
        } else {
            assert((num as int) < 0x10_0000) by (bit_vector)
                requires
                    num & 0xFFF0_0000 == 0,
            ;
            lemma_sqrt_probe_ok(start, num, 9);
        }
        let k0 = choose|k: nat|
            k <= 15 && (b1 as int) == #[trigger] (pow2(2 * k) as int) && b1 <= num && (
            num as int) < 4 * (pow2(2 * k) as int);
        vstd::arithmetic::power2::lemma_pow2_adds(2 * k0, 2);
        vstd::arithmetic::power2::lemma_pow2_adds(k0 + 1, k0 + 1);
        assert(4 * (pow2(2 * k0) as int) == (pow2(k0 + 1) as int) * (pow2(k0 + 1) as int));
        lemma_sqrt_pass_exact(num, 0, b1, 0, num as int, k0);
        r1 = first.1 as int;
        assert(r1 * r1 <= (num as int) && (num as int) < (r1 + 1) * (r1 + 1) && (first.0 as int)
            == (num as int) - r1 * r1 && r1 >= 0);
    }
    assert(r1 * r1 <= (num as int) && (num as int) < (r1 + 1) * (r1 + 1) && (first.0 as int)
        == (num as int) - r1 * r1 && r1 >= 0);
    assert(r1 < 0x1_0000) by (nonlinear_arith)
        requires
            r1 >= 0,
            r1 * r1 <= (num as int),
            (num as int) < 0x1_0000_0000,
    ;

    // The small-remainder rescaling is exact.
    let rescaled = sqrt_transition(first.0, first.1);
    assert(rescaled.0 as int == (first.0 as int) * 0x1_0000);
    assert(rescaled.1 as int == r1 * 0x1_0000);

    // The fractional pass finishes the root at eight more bits.
    let r2 = r1 * 0x100;
    assert(rescaled.1 as int == r2 * (pow2(8) as int));
    assert(v == (rescaled.0 as int) + r2 * r2) by (nonlinear_arith)
        requires
            (rescaled.0 as int) == ((num as int) - r1 * r1) * 0x1_0000,
            v == (num as int) * 0x1_0000,
            r2 == r1 * 0x100,
    ;
    assert(v < (r2 + 0x100) * (r2 + 0x100)) by (nonlinear_arith)
        requires
            (num as int) < (r1 + 1) * (r1 + 1),
            v == (num as int) * 0x1_0000,
            r2 == r1 * 0x100,
    ;
    lemma_sqrt_pass_exact(rescaled.0, rescaled.1, 0x4000, r2, v, 7);
    let second = sqrt_pass(rescaled.0, rescaled.1, 0x4000);
    let root = second.1 as int;
    assert(root * root <= v && v < (root + 1) * (root + 1) && (second.0 as int) == v - root
        * root);
    assert(root < 0x100_0000) by (nonlinear_arith)
        requires
            root >= 0,
            root * root <= v,
            v < 0x1_0000_0000_0000,
    ;
    let rounded = if second.0 > second.1 {
        wadd32(second.1, 1)
    } else {
        second.1
    };
    assert(rounded as int == root + (if v - root * root > root {
        1int
    } else {
        0int
    }));
    assert(sqrt_engine(a) == (if a < 0 {
        wneg32(rounded as i32)
    } else {
        rounded as i32
    }));
}

} // verus!

