use color_sort::{hex_parse_panics, parse_color_panics, parse_color_syntax, parse_hex_channels, ColorSyntax, ParseError};

fn syntax(s: &str) -> Result<ColorSyntax, ParseError> {
    assert!(!parse_color_panics(s));
    parse_color_syntax(s)
}

#[test]
fn reads_short_hex() {
    assert_eq!(parse_hex_channels(b"#f00"), Ok((255, 0, 0, 255)));
    assert_eq!(parse_hex_channels(b"#F0a"), Ok((255, 0, 170, 255)));
}

#[test]
fn reads_short_hex_with_alpha() {
    assert_eq!(parse_hex_channels(b"#f00a"), Ok((255, 0, 0, 170)));
}

#[test]
fn reads_long_hex() {
    assert_eq!(parse_hex_channels(b"#ff0000"), Ok((255, 0, 0, 255)));
    assert_eq!(parse_hex_channels(b"#12aBcD"), Ok((0x12, 0xab, 0xcd, 255)));
    assert_eq!(parse_hex_channels(b"#ff0000aa"), Ok((255, 0, 0, 0xaa)));
}

#[test]
fn hex_without_hash_and_with_many_hashes() {
    assert_eq!(parse_hex_channels(b"abc"), Ok((0xaa, 0xbb, 0xcc, 255)));
    assert_eq!(parse_hex_channels(b"###abc"), Ok((0xaa, 0xbb, 0xcc, 255)));
}

#[test]
fn hex_pairs_take_a_plus_sign() {
    assert_eq!(parse_hex_channels(b"#+f+f+f"), Ok((15, 15, 15, 255)));
    assert_eq!(parse_hex_channels(b"#+++"), Err(ParseError::InvalidHex));
}

#[test]
fn hex_rejects_bad_digits_and_lengths() {
    assert_eq!(parse_hex_channels(b"#ggg"), Err(ParseError::InvalidHex));
    assert_eq!(parse_hex_channels(b"#ff"), Err(ParseError::InvalidHex));
    assert_eq!(parse_hex_channels(b"#12345"), Err(ParseError::InvalidHex));
    assert_eq!(parse_hex_channels(b"#1234567"), Err(ParseError::InvalidHex));
    assert_eq!(parse_hex_channels(b"#"), Err(ParseError::InvalidHex));
}

#[test]
fn hex_cut_inside_a_character_is_flagged() {
    assert!(hex_parse_panics("#\u{e9}0".as_bytes()));
    assert!(hex_parse_panics("#a\u{e9}fff".as_bytes()));
    assert!(!hex_parse_panics("#\u{e9}ffff".as_bytes()));
    assert_eq!(parse_hex_channels("#\u{e9}ffff".as_bytes()), Err(ParseError::InvalidHex));
    assert!(!hex_parse_panics(b"#fff"));
    assert!(parse_color_panics(" #a\u{e9}fff "));
    assert!(!parse_color_panics("rgb(\u{e9})"));
}

#[test]
fn parse_hex_notation() {
    match syntax("  #ff0000aa\n") {
        Ok(ColorSyntax::Hex { red, green, blue, alpha }) => assert_eq!((red, green, blue, alpha), (255, 0, 0, 0xaa)),
        other => panic!("unexpected {:?}", other),
    }
}

#[test]
fn parse_rgb_notation() {
    match syntax("rgb(0, 255, 0)") {
        Ok(ColorSyntax::Rgb { red, green, blue }) => assert_eq!((red, green, blue), (0, 255, 0)),
        other => panic!("unexpected {:?}", other),
    }
    match syntax(" rgb( +1 ,002,\u{a0}3 ) ") {
        Ok(ColorSyntax::Rgb { red, green, blue }) => assert_eq!((red, green, blue), (1, 2, 3)),
        other => panic!("unexpected {:?}", other),
    }
}

#[test]
fn parse_rgba_notation() {
    match syntax("rgba(255, 0, 0, 0.5)") {
        Ok(ColorSyntax::Rgba { red, green, blue, alpha }) => {
            assert_eq!((red, green, blue), (255, 0, 0));
            assert_eq!(alpha, "0.5");
        }
        other => panic!("unexpected {:?}", other),
    }
}

#[test]
fn parse_hsl_notation() {
    match syntax("hsl(240, 100%, 50%)") {
        Ok(ColorSyntax::Hsl { hue, saturation, lightness }) => {
            assert_eq!(hue, "240");
            assert_eq!(saturation, "100");
            assert_eq!(lightness, "50");
        }
        other => panic!("unexpected {:?}", other),
    }
    match syntax("hsl( 120degdeg , 40%% ,7 )") {
        Ok(ColorSyntax::Hsl { hue, saturation, lightness }) => {
            assert_eq!(hue, "120");
            assert_eq!(saturation, "40");
            assert_eq!(lightness, "7");
        }
        other => panic!("unexpected {:?}", other),
    }
}

#[test]
fn rgb_errors() {
    assert_eq!(syntax("rgb(256, 0, 0)").unwrap_err(), ParseError::InvalidRgb);
    assert_eq!(syntax("rgb(1, 2)").unwrap_err(), ParseError::InvalidRgb);
    assert_eq!(syntax("rgb(1, 2, 3").unwrap_err(), ParseError::InvalidRgb);
    assert_eq!(syntax("rgb(1, 2, 3, 4)").unwrap_err(), ParseError::InvalidRgb);
    assert_eq!(syntax("rgba(1, 2, 3)").unwrap_err(), ParseError::InvalidRgb);
    assert_eq!(syntax("rgb(-1, 2, 3)").unwrap_err(), ParseError::InvalidRgb);
    assert_eq!(syntax("rgb(+, 2, 3)").unwrap_err(), ParseError::InvalidRgb);
    assert_eq!(syntax("rgb(, 2, 3)").unwrap_err(), ParseError::InvalidRgb);
}

#[test]
fn hsl_errors() {
    assert_eq!(syntax("hsl(1, 2%)").unwrap_err(), ParseError::InvalidHsl);
    assert_eq!(syntax("hsl(1, 2%, 3%").unwrap_err(), ParseError::InvalidHsl);
}

#[test]
fn unknown_notation() {
    assert_eq!(syntax("blue").unwrap_err(), ParseError::InvalidFormat);
    assert_eq!(syntax("").unwrap_err(), ParseError::InvalidFormat);
    assert_eq!(syntax("RGB(1,2,3)").unwrap_err(), ParseError::InvalidFormat);
    assert_eq!(syntax("#12345").unwrap_err(), ParseError::InvalidHex);
}

#[test]
fn error_messages() {
    assert_eq!(ParseError::InvalidHex.message(), "Invalid hexadecimal color format");
    assert_eq!(ParseError::InvalidRgb.message(), "Invalid RGB values");
    assert_eq!(ParseError::InvalidHsl.message(), "Invalid HSL values");
    assert_eq!(ParseError::InvalidFormat.message(), "Invalid color format");
    assert_eq!(ParseError::InvalidAlpha.message(), "Invalid alpha value");
    assert_eq!(ParseError::InvalidValue.message(), "Invalid color value");
}
