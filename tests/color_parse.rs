use draw::{Rgba, RgbaParseErrorKind};

#[test]
fn parses_six_digit_hex_as_opaque() {
    let c: Rgba = "#ff0000".parse().unwrap();
    assert!(c == Rgba([255, 0, 0, 255]));
}

#[test]
fn parses_three_digit_hex_by_doubling_nibbles() {
    let c = Rgba::parse("#f00").unwrap();
    assert!(c == Rgba([255, 0, 0, 255]));
    let c = Rgba::parse("#1a7").unwrap();
    assert!(c == Rgba([0x11, 0xaa, 0x77, 255]));
}

#[test]
fn parses_eight_digit_hex_as_argb() {
    let c = Rgba::parse("#80123456").unwrap();
    assert!(c == Rgba([0x12, 0x34, 0x56, 0x80]));
}

#[test]
fn malformed_hex_is_an_error() {
    let e = Rgba::parse("#zz0000").unwrap_err();
    assert_eq!(e.kind, RgbaParseErrorKind::HexParse);
    let e = Rgba::parse("#").unwrap_err();
    assert_eq!(e.kind, RgbaParseErrorKind::HexParse);
    let e = Rgba::parse("#123456789").unwrap_err();
    assert_eq!(e.kind, RgbaParseErrorKind::HexParse);
}

#[test]
fn text_without_hash_is_unrecognized() {
    let e = Rgba::parse("red").unwrap_err();
    assert_eq!(e.kind, RgbaParseErrorKind::Unrecognized);
    let e = Rgba::parse("").unwrap_err();
    assert_eq!(e.kind, RgbaParseErrorKind::Unrecognized);
}

#[test]
fn channel_setters_and_alpha_scaling() {
    let mut c = Rgba([1, 2, 3, 200]);
    c.set_red(9);
    c.set_alpha(100);
    assert!(c == Rgba([9, 2, 3, 100]));
    assert_eq!(c.relative_alpha(51).alpha(), 20);
    assert_eq!(c.fast_relative_alpha(128).alpha(), 50);
    assert_eq!(Rgba([0x12, 0x34, 0x56, 0x78]).to_argb_u32(), 0x78123456);
    assert_eq!(Rgba([0x12, 0x34, 0x56, 0x78]).to_rgba_u32(), 0x12345678);
    assert_eq!(Rgba([0x12, 0x34, 0x56, 0x78]).to_le_u32(), 0x78563412);
}
