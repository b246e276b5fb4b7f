use fix16::fix16::{Fix16, FIX16_MAX, FIX16_MIN, FIX16_ONE, FIX16_PI};
use fix16::no_rounding;

fn to_float(val: Fix16) -> f32 {
    val.0 as f32 / 65536.0f32
}

#[test]
fn rounding_mode_is_fixed() {
    assert_eq!(no_rounding(), false);
}

#[test]
fn float_round_trip_on_integers() {
    // Representable integers survive the trip through the fixed-point form.
    for n in [-32768, -32767, -1234, -1, 0, 1, 99, 4203, 32767] {
        let f = Fix16::from(n);
        assert_eq!(to_float(f), n as f32);
    }
}

#[test]
fn int_round_trip_on_integers() {
    for n in [-32767, -1234, -1, 0, 1, 99, 4203, 32767] {
        assert_eq!(Fix16::from(n).to_int(), n);
    }
    // The one representable integer that does not survive the rounding trip:
    // biasing the scaled smallest integer wraps before the division.
    assert_eq!(Fix16::from(-32768).to_int(), 32767);
}

#[test]
fn detecting_add_matches_wrapping_when_unflagged() {
    let samples = [
        FIX16_MIN,
        FIX16_MIN + 1,
        -FIX16_ONE,
        -1,
        0,
        1,
        FIX16_ONE,
        12345678,
        FIX16_MAX - 1,
        FIX16_MAX,
    ];
    for &a in &samples {
        for &b in &samples {
            let (value, flagged) = Fix16(a).overflowing_add(Fix16(b));
            assert_eq!(value, Fix16(a) + Fix16(b));
            assert_eq!(flagged, (a as i64 + b as i64) != (value.0 as i64));
            let (value, flagged) = Fix16(a).overflowing_sub(Fix16(b));
            assert_eq!(value, Fix16(a) - Fix16(b));
            assert_eq!(flagged, (a as i64 - b as i64) != (value.0 as i64));
            let (value, flagged) = Fix16(a).overflowing_mul(Fix16(b));
            if !flagged {
                assert_eq!(value, Fix16(a) * Fix16(b));
            }
        }
    }
}

#[test]
fn saturation_at_the_edges() {
    assert_eq!(Fix16(FIX16_MAX).saturating_add(Fix16(FIX16_ONE)), Fix16(FIX16_MAX));
    assert_eq!(Fix16(FIX16_MIN).saturating_sub(Fix16(FIX16_ONE)), Fix16(FIX16_MIN));
    assert_eq!(
        Fix16::from(30000).saturating_mul(Fix16::from(30000)),
        Fix16(FIX16_MAX)
    );
    assert_eq!(
        Fix16::from(-30000).saturating_mul(Fix16::from(30000)),
        Fix16(FIX16_MIN)
    );
    assert_eq!(Fix16::from(30000).saturating_div(Fix16(3)), Fix16(FIX16_MAX));
    assert_eq!(Fix16::from(-30000).saturating_div(Fix16(3)), Fix16(FIX16_MIN));
}

#[test]
fn division_by_zero_returns_sentinel_unflagged() {
    for x in [FIX16_MIN, -FIX16_ONE, 0, 1, FIX16_ONE, FIX16_MAX] {
        let (value, flagged) = Fix16(x).overflowing_div(Fix16(0));
        assert_eq!(value, Fix16(FIX16_MIN));
        assert_eq!(flagged, false);
        assert_eq!(Fix16(x) / Fix16(0), Fix16(FIX16_MIN));
    }
}

#[test]
fn division_paths() {
    // The coarse seeding path: a divisor with its top twelve bits occupied.
    let (value, flagged) = Fix16::from(1).overflowing_div(Fix16::from(20000));
    assert_eq!((value, flagged), (Fix16(3), false));
    let (value, flagged) = Fix16::from(30000).overflowing_div(Fix16::from(20000));
    assert_eq!((value, flagged), (Fix16(98304), false));
    // The overflow path: a quotient too large for the representation.
    let (value, flagged) = Fix16::from(30000).overflowing_div(Fix16(3));
    assert_eq!((value, flagged), (Fix16(0), true));
}

#[test]
fn square_roots() {
    assert_eq!(Fix16::from(4).sqrt(), Fix16(0x20000));
    assert_eq!(Fix16(0x4000).sqrt(), Fix16(0x8000));
    assert_eq!(Fix16(FIX16_MAX).sqrt(), Fix16(0xb504f3));
    assert_eq!(Fix16::from(0).sqrt(), Fix16(0));
    // The sign convention: the root of a negative value is the negated
    // magnitude root.
    assert_eq!(Fix16::from(-4).sqrt(), Fix16(-131072));
    // A large first-pass remainder takes the rescaling path, which can land
    // one tick below the exactly rounded root; the exact root here is
    // 10164213 (rounded from ...212.6).
    assert_eq!(Fix16(1576404049).sqrt(), Fix16(10164212));
}

#[test]
fn detecting_add_round_trip_pseudo_random() {
    // A deterministic pseudo-random walk over the raw range, boundary
    // values mixed in: whenever the flag is clear the detecting value is
    // the exact sum.
    let mut state: u64 = 0x243F_6A88_85A3_08D3;
    let mut next = move || {
        state ^= state << 13;
        state ^= state >> 7;
        state ^= state << 17;
        state as i32
    };
    let mut samples = vec![FIX16_MIN, FIX16_MIN + 1, -1, 0, 1, FIX16_MAX - 1, FIX16_MAX];
    for _ in 0..10000 {
        samples.push(next());
    }
    for i in 0..samples.len() {
        let a = samples[i];
        let b = samples[(i * 31 + 7) % samples.len()];
        let (value, flagged) = Fix16(a).overflowing_add(Fix16(b));
        assert_eq!(value, Fix16(a) + Fix16(b));
        if !flagged {
            assert_eq!(value.0 as i64, a as i64 + b as i64);
        } else {
            assert_ne!(value.0 as i64, a as i64 + b as i64);
        }
    }
}

#[test]
fn sine_repeats_after_a_full_turn() {
    for raw in [0, 100, -100, 205887, 1000000] {
        assert_eq!(Fix16(raw + 411774).sin(), Fix16(raw).sin());
    }
}

#[test]
fn sine_is_odd_at_samples() {
    for n in [1, 203, 2193, 4203, 30000] {
        let x = Fix16::from(n);
        let minus_x = Fix16::from(-n);
        assert_eq!(minus_x.sin().0, -x.sin().0);
    }
}

#[test]
fn trig_boundaries() {
    // The exact quarter-turn boundary reads one whole unit.
    assert_eq!(Fix16(102943).sin(), Fix16(FIX16_ONE));
    assert_eq!(Fix16(102944).sin(), Fix16(FIX16_ONE));
    assert_eq!(Fix16(FIX16_PI).sin(), Fix16(0));
    assert_eq!(Fix16(-FIX16_PI).sin(), Fix16(0));
    assert_eq!(Fix16(0).sin(), Fix16(0));
}

#[test]
fn hex_parse_forms() {
    let ok = |s: &str| Fix16::from_hex_str(&s.to_string()).unwrap();
    assert_eq!(ok("0x32.69"), Fix16(3303680));
    assert_eq!(ok("-0x10.8"), Fix16(-1050624));
    assert_eq!(ok("0X1f"), Fix16(2031616));
    assert_eq!(ok("+3.5"), Fix16(197888));
    assert_eq!(ok("1.234"), Fix16(74560));
    assert_eq!(ok("-1"), Fix16(-65536));
    // A short hex-letter fraction is normalized like any other: `a`
    // becomes `0a00` before it fills the low word.
    assert_eq!(ok("0x1.a"), Fix16(0x10A00));
    // An empty fraction is padded to a single zero digit.
    assert_eq!(ok("0x32."), Fix16(3276800));
    // A long fraction with leading zeros still fits sixteen bits.
    assert_eq!(ok("0x1.00005"), Fix16(65541));
    // The largest integer part lands on the smallest raw value.
    assert_eq!(ok("8000."), Fix16(FIX16_MIN));
    assert_eq!(ok("-8000."), Fix16(FIX16_MIN));
}

#[test]
fn hex_parse_failures() {
    let err = |s: &str| Fix16::from_hex_str(&s.to_string()).unwrap_err();
    assert_eq!(err(""), "cannot parse integer from empty string");
    assert_eq!(err("xyz"), "invalid digit found in string");
    assert_eq!(err("123456"), "number too large to fit in target type");
    assert_eq!(err("0x.5"), "cannot parse integer from empty string");
    assert_eq!(err("-"), "cannot parse integer from empty string");
}

#[test]
fn ordering_helpers() {
    let a = Fix16::from(3);
    let b = Fix16::from(7);
    assert_eq!(a.min(b), a);
    assert_eq!(a.max(b), b);
    assert_eq!(Fix16::from(-4).abs(), Fix16::from(4));
    assert_eq!(Fix16(FIX16_MIN).abs(), Fix16(FIX16_MIN));
    assert_eq!(Fix16(0x18000).floor(), Fix16(0x10000));
    assert_eq!(Fix16(-0x18000).floor(), Fix16(-0x20000));
    assert_eq!(Fix16(0x18000).ceil(), Fix16(0x20000));
    assert_eq!(Fix16(0x10000).ceil(), Fix16(0x10000));
    // The clamp composition applies the high bound last, so it wins
    // whenever it exceeds `min(self, low)`.
    assert_eq!(
        Fix16::from(1).clamp(Fix16::from(2), Fix16::from(4)),
        Fix16::from(4)
    );
    assert_eq!(
        Fix16::from(5).clamp(Fix16::from(10), Fix16::from(3)),
        Fix16::from(5)
    );
}

#[test]
fn remainder_and_shifts() {
    assert_eq!(Fix16(0x78000) % Fix16(0x20000), Fix16(0x18000));
    assert_eq!(Fix16(-0x78000) % Fix16(0x20000), Fix16(-0x18000));
    assert_eq!(Fix16(0x10000) << Fix16::from(2), Fix16(0x40000));
    assert_eq!(Fix16(0x40000) >> Fix16::from(2), Fix16(0x10000));
    assert_eq!(Fix16(-0x40000) >> Fix16::from(2), Fix16(-0x10000));
}
