use fix16::fix16::{Fix16, FIX16_MAX, FIX16_MIN, FIX16_ONE};

/// The float-to-fixed conversion: scale, bias by half toward the sign, and
/// truncate.  Floating point stays outside the verified core, so the tests
/// carry their own copy of the conversion.
fn from_float(val: f32) -> Fix16 {
    let mut x = val * 65536.0f32;
    if x.is_sign_positive() {
        x += 0.5;
    } else {
        x -= 0.5;
    }
    Fix16(x as i32)
}

/// The fixed-to-float conversion: exact within the float mantissa.
fn to_float(val: Fix16) -> f32 {
    val.0 as f32 / 65536.0f32
}

#[test]
fn basic_ops() {
    // The expected raw values are the reference fixed-point library's
    // answers for the same inputs.
    let rusty_twenty = Fix16::from(20);
    assert_eq!(rusty_twenty.0, 1310720);

    let rusty_big = from_float(2039.42);
    assert_eq!(rusty_big.0, 133655432);

    let rusty_add = rusty_big + rusty_twenty;
    assert_eq!(rusty_add.0, 134966152);

    let rusty_sub = rusty_big - rusty_twenty;
    assert_eq!(rusty_sub.0, 132344712);

    // The product overflows the representation, so the operator form
    // returns the overflow sentinel.
    let rusty_mul = rusty_big * rusty_twenty;
    assert_eq!(rusty_mul.0, -2147483648);

    let rusty_div = rusty_big / rusty_twenty;
    assert_eq!(rusty_div.0, 6682772);

    let rusty_sin = rusty_big.sin();
    assert_eq!(rusty_sin.0, -33161);

    let rusty_cos = rusty_big.cos();
    assert_eq!(rusty_cos.0, -56527);

    let rusty_tan = rusty_big.tan();
    assert_eq!(rusty_tan.0, 38446);
}

#[test]
fn it_works() {
    let pos_two = Fix16::from(2);
    let neg_onetwothreefour_fivesix = from_float(-1234.56);

    assert_eq!(to_float(neg_onetwothreefour_fivesix + pos_two), -1232.56);
    assert_eq!(to_float(neg_onetwothreefour_fivesix - pos_two), -1236.56);
    assert_eq!(to_float(neg_onetwothreefour_fivesix * pos_two), -2469.12);
    assert_eq!(to_float(neg_onetwothreefour_fivesix / pos_two), -617.28);

    assert_eq!(
        to_float(neg_onetwothreefour_fivesix.overflowing_add(pos_two).0),
        -1232.56
    );
    assert_eq!(
        to_float(neg_onetwothreefour_fivesix.overflowing_sub(pos_two).0),
        -1236.56
    );
    assert_eq!(
        to_float(neg_onetwothreefour_fivesix.overflowing_mul(pos_two).0),
        -2469.12
    );
    assert_eq!(
        to_float(neg_onetwothreefour_fivesix.overflowing_div(pos_two).0),
        -617.28
    );

    assert_eq!(
        to_float(neg_onetwothreefour_fivesix.saturating_add(pos_two)),
        -1232.56
    );
    assert_eq!(
        to_float(neg_onetwothreefour_fivesix.saturating_sub(pos_two)),
        -1236.56
    );
    assert_eq!(
        to_float(neg_onetwothreefour_fivesix.saturating_mul(pos_two)),
        -2469.12
    );
    assert_eq!(
        to_float(neg_onetwothreefour_fivesix.saturating_div(pos_two)),
        -617.28
    );

    let overflowing_operation = Fix16(FIX16_MAX).overflowing_add(Fix16(FIX16_ONE));
    assert_eq!(overflowing_operation.1, true);
    assert_eq!(overflowing_operation.0 - Fix16(FIX16_ONE - 1), Fix16(FIX16_MIN));

    let underflowing_operation =
        Fix16(FIX16_MIN).overflowing_sub(Fix16(FIX16_ONE) - Fix16(FIX16_ONE - 1));
    assert_eq!(underflowing_operation.1, true);
    assert_eq!(underflowing_operation.0, Fix16(FIX16_MAX));

    let hex_str_parse = Fix16::from_hex_str(&"0x32.69".to_string());
    if let Err(why) = hex_str_parse {
        panic!("{}", why);
    }
    let hex_str_parse = hex_str_parse.unwrap();
    assert_eq!(hex_str_parse, Fix16(0x0032_6900));

    // Decimal parsing goes through the native float parser, which lives
    // outside the verified core; its conversion is replicated here.
    let str_parse = from_float("-69.420".parse::<f32>().unwrap());
    assert_eq!(str_parse, from_float(-69.420));

    assert_eq!(Fix16::from(22).sqrt(), Fix16(0x4b0bf));
    assert_eq!(from_float(2451.1238).sqrt(), Fix16(0x318242));

    assert_eq!(Fix16::from(203).sin(), Fix16(0xeee4));
    assert_eq!(Fix16::from(4203).cos(), Fix16(0xe758));
    assert_eq!(Fix16::from(2193).tan(), Fix16(0x2cac));
}
