use bitshow::{
    render_decimal, render_hex, render_octal, render_signed, show_me_decimal, show_me_hex,
    show_me_octal, show_me_signed, value_from_string, BitsError,
};

fn s(x: &str) -> String {
    x.to_string()
}

#[test]
fn signed_reads_low_bits_as_twos_complement() {
    assert_eq!(render_signed(8, 0xFF), Ok(s("-1")));
    assert_eq!(render_signed(16, 0xFFFF), Ok(s("-1")));
    assert_eq!(render_signed(32, 0x8000_0000), Ok(s("-2147483648")));
    assert_eq!(render_signed(64, 0x8000_0000_0000_0000), Ok(s("-9223372036854775808")));
    assert_eq!(render_signed(64, u64::MAX), Ok(s("-1")));
    assert_eq!(render_signed(8, 0x7F), Ok(s("127")));
    assert_eq!(render_signed(8, 0x180), Ok(s("-128")));
    assert_eq!(render_signed(16, 0x1_2345), Ok(s("9029")));
    assert_eq!(render_signed(32, 0), Ok(s("0")));
}

#[test]
fn signed_rejects_other_widths() {
    assert_eq!(render_signed(7, 1), Err(BitsError::InvalidBitWidth(7)));
    assert_eq!(render_signed(0, 1), Err(BitsError::InvalidBitWidth(0)));
    assert_eq!(render_signed(128, 1), Err(BitsError::InvalidBitWidth(128)));
}

#[test]
fn hex_is_lowercase_and_full_width() {
    assert_eq!(render_hex(255), "0xff");
    assert_eq!(render_hex(0x1_0000_0000), "0x100000000");
    assert_eq!(render_hex(0), "0x0");
    assert_eq!(render_hex(0xDEAD_BEEF), "0xdeadbeef");
    assert_eq!(render_hex(u64::MAX), "0xffffffffffffffff");
}

#[test]
fn decimal_and_octal_text() {
    assert_eq!(render_decimal(0), "0");
    assert_eq!(render_decimal(255), "255");
    assert_eq!(render_decimal(u64::MAX), "18446744073709551615");
    assert_eq!(render_octal(0), "0");
    assert_eq!(render_octal(8), "10");
    assert_eq!(render_octal(511), "777");
    assert_eq!(render_octal(u64::MAX), "1777777777777777777777");
}

#[test]
fn rendered_text_parses_back() {
    for &v in &[0u64, 1, 7, 8, 255, 0x1_0000_0000, 0xDEAD_BEEF_CAFE_F00D, u64::MAX] {
        assert_eq!(value_from_string(render_hex(v)), Ok(v));
        assert_eq!(value_from_string(render_decimal(v)), Ok(v));
        assert_eq!(value_from_string(format!("0o{}", render_octal(v))), Ok(v));
    }
}

#[test]
fn commands_read_then_render() {
    assert_eq!(show_me_signed(&s("0xff"), 8), Ok(s("-1")));
    assert_eq!(show_me_signed(&s("0xff"), 9), Err(BitsError::InvalidBitWidth(9)));
    assert_eq!(show_me_signed(&s("zz"), 8), Err(BitsError::Parse));
    assert_eq!(show_me_hex(&s("255")), Ok(s("0xff")));
    assert_eq!(show_me_hex(&s("4294967296")), Ok(s("0x100000000")));
    assert_eq!(show_me_decimal(&s("0o17")), Ok(s("15")));
    assert_eq!(show_me_octal(&s("0x1ff")), Ok(s("777")));
    assert_eq!(show_me_octal(&s("0x")), Err(BitsError::Parse));
    assert_eq!(show_me_decimal(&s("18446744073709551616")), Err(BitsError::Parse));
}
