use material_color_utils::helpers::image_extraction_helpers::pixels_from_rgb8;
use material_color_utils::utils::color_utils::Argb;
use material_color_utils::utils::error::ColorParseError;
use material_color_utils::utils::math_utils::MathUtils;
use material_color_utils::utils::string_utils::StringUtils;

#[test]
fn test_argb_components() {
    let color = Argb::from_rgb(10, 20, 30);
    assert_eq!(color.red(), 10);
    assert_eq!(color.green(), 20);
    assert_eq!(color.blue(), 30);
    assert_eq!(color.alpha(), 255);
}

#[test]
fn test_is_opaque() {
    let color = Argb::from_rgb(10, 20, 30);
    assert!(color.is_opaque());
    let transparent = Argb(0x00112233);
    assert!(!transparent.is_opaque());
}

#[test]
fn test_sanitize_degrees_int() {
    assert_eq!(MathUtils::sanitize_degrees_int(0), 0);
    assert_eq!(MathUtils::sanitize_degrees_int(360), 0);
    assert_eq!(MathUtils::sanitize_degrees_int(720), 0);
    assert_eq!(MathUtils::sanitize_degrees_int(180), 180);
    assert_eq!(MathUtils::sanitize_degrees_int(-90), 270);
    assert_eq!(MathUtils::sanitize_degrees_int(-450), 270);
}

#[test]
fn test_hex_from_argb() {
    assert_eq!(StringUtils::hex_from_argb(Argb(0xFFFF0000)), "#ff0000");
    assert_eq!(StringUtils::hex_from_argb(Argb(0xFF00FF00)), "#00ff00");
    assert_eq!(StringUtils::hex_from_argb(Argb(0xFF0000FF)), "#0000ff");
    assert_eq!(StringUtils::hex_from_argb(Argb(0xFFFFFFFF)), "#ffffff");
    assert_eq!(StringUtils::hex_from_argb(Argb(0xFF000000)), "#000000");
}

#[test]
fn from_rgb_packs_opaque_channels() {
    assert_eq!(Argb::from_rgb(0x12, 0x34, 0x56), Argb(0xFF123456));
    assert_eq!(Argb::from_rgb(0, 0, 0), Argb(0xFF000000));
    assert_eq!(Argb::from_rgb(255, 255, 255), Argb(0xFFFFFFFF));
}

#[test]
fn channels_read_back_every_byte() {
    let c = Argb(0x80A1B2C3);
    assert_eq!(c.alpha(), 0x80);
    assert_eq!(c.red(), 0xA1);
    assert_eq!(c.green(), 0xB2);
    assert_eq!(c.blue(), 0xC3);
    assert!(!c.is_opaque());
}

#[test]
fn opaque_color_rebuilt_from_its_channels() {
    let c = Argb(0xFF6750A4);
    assert_eq!(Argb::from_rgb(c.red(), c.green(), c.blue()), c);
    let translucent = Argb(0x7F6750A4);
    assert_ne!(Argb::from_rgb(translucent.red(), translucent.green(), translucent.blue()), translucent);
}

#[test]
fn argb_converts_to_and_from_u32() {
    let c: Argb = Argb::from(0xFF4285F4u32);
    assert_eq!(c, Argb(0xFF4285F4));
    let v: u32 = u32::from(c);
    assert_eq!(v, 0xFF4285F4);
}

#[test]
fn sanitize_degrees_int_extremes_and_period() {
    assert_eq!(MathUtils::sanitize_degrees_int(359), 359);
    assert_eq!(MathUtils::sanitize_degrees_int(-1), 359);
    assert_eq!(MathUtils::sanitize_degrees_int(-360), 0);
    assert_eq!(MathUtils::sanitize_degrees_int(i32::MAX), 127);
    assert_eq!(MathUtils::sanitize_degrees_int(i32::MIN), 232);
    for d in -1000..1000 {
        let s = MathUtils::sanitize_degrees_int(d);
        assert!((0..360).contains(&s));
        assert_eq!(MathUtils::sanitize_degrees_int(s), s);
        assert_eq!(MathUtils::sanitize_degrees_int(d + 360), s);
    }
}

#[test]
fn hex_ignores_alpha_and_pads_digits() {
    assert_eq!(StringUtils::hex_from_argb(Argb(0x00010203)), "#010203");
    assert_eq!(StringUtils::hex_from_argb(Argb(0x80ABCDEF)), "#abcdef");
    let s = StringUtils::hex_from_argb(Argb(0xFF4285F4));
    assert_eq!(s, "#4285f4");
    assert_eq!(s.len(), 7);
}

#[test]
fn test_from_hex_six_digits_is_opaque() {
    assert_eq!(Argb::from_hex("#4285F4").unwrap(), Argb(0xFF4285F4));
    assert_eq!(Argb::from_hex("ff0000").unwrap(), Argb(0xFFFF0000));
    assert_eq!(Argb::from_hex("#000000").unwrap(), Argb(0xFF000000));
    assert_eq!(Argb::from_hex("+ABCDE").unwrap(), Argb(0xFF0ABCDE));
}

#[test]
fn test_from_hex_eight_digits_keeps_alpha() {
    assert_eq!(Argb::from_hex("#80FF0000").unwrap(), Argb(0x80FF0000));
    assert_eq!(Argb::from_hex("00000000").unwrap(), Argb(0x00000000));
}

#[test]
fn test_from_hex_invalid_length() {
    assert!(matches!(Argb::from_hex(""), Err(ColorParseError::InvalidLength)));
    assert!(matches!(Argb::from_hex("#"), Err(ColorParseError::InvalidLength)));
    assert!(matches!(Argb::from_hex("#12345"), Err(ColorParseError::InvalidLength)));
    assert!(matches!(Argb::from_hex("#1234567"), Err(ColorParseError::InvalidLength)));
    assert!(matches!(Argb::from_hex("##123456"), Err(ColorParseError::InvalidLength)));
}

#[test]
fn test_from_hex_invalid_digits() {
    assert!(matches!(Argb::from_hex("#GG0000"), Err(ColorParseError::InvalidHex(_))));
    assert!(matches!(Argb::from_hex("#12 456"), Err(ColorParseError::InvalidHex(_))));
    assert!(matches!(Argb::from_hex("#ééé"), Err(ColorParseError::InvalidLength)));
}

#[test]
fn test_to_hex_uppercase() {
    assert_eq!(Argb(0xFFFF0000).to_hex(), "#FF0000");
    assert_eq!(Argb(0xFF4285F4).to_hex(), "#4285F4");
    assert_eq!(Argb(0x12ABCDEF).to_hex(), "#ABCDEF");
}

#[test]
fn test_hex_round_trip() {
    for value in [0xFF000000u32, 0xFFFFFFFF, 0xFF4285F4, 0xFF0A0B0C] {
        let color = Argb(value);
        assert_eq!(Argb::from_hex(&color.to_hex()).unwrap(), color);
        assert_eq!(Argb::from_hex(&StringUtils::hex_from_argb(color)).unwrap(), color);
    }
}

#[test]
fn test_pixels_from_rgb8() {
    let pixels = pixels_from_rgb8(&[1, 2, 3, 4, 5, 6, 7]);
    assert_eq!(pixels, vec![Argb(0xFF010203), Argb(0xFF040506)]);
    assert!(pixels_from_rgb8(&[]).is_empty());
}
