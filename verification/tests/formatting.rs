use color_sort::{hex_string, parse_color_syntax, rgb_string, ColorSyntax};

#[test]
fn hex_code_of_opaque_color() {
    assert_eq!(hex_string(255, 0, 0, None), "#ff0000");
    assert_eq!(hex_string(1, 0xab, 0x10, None), "#01ab10");
}

#[test]
fn hex_code_with_alpha() {
    assert_eq!(hex_string(255, 0, 0, Some(128)), "#ff000080");
    assert_eq!(hex_string(0, 0, 0, Some(0)), "#00000000");
}

#[test]
fn rgb_notation_in_decimal() {
    assert_eq!(rgb_string(255, 0, 0), "rgb(255, 0, 0)");
    assert_eq!(rgb_string(7, 42, 100), "rgb(7, 42, 100)");
}

#[test]
fn hex_code_reads_back() {
    for (r, g, b, a) in [(0u8, 1u8, 2u8, None), (255, 128, 9, Some(200u8)), (16, 32, 48, Some(255))] {
        match parse_color_syntax(&hex_string(r, g, b, a)) {
            Ok(ColorSyntax::Hex { red, green, blue, alpha }) => {
                assert_eq!((red, green, blue, alpha), (r, g, b, a.unwrap_or(255)))
            }
            other => panic!("unexpected {:?}", other),
        }
    }
}

#[test]
fn rgb_notation_reads_back() {
    for (r, g, b) in [(0u8, 0u8, 0u8), (255, 10, 9), (99, 100, 101)] {
        match parse_color_syntax(&rgb_string(r, g, b)) {
            Ok(ColorSyntax::Rgb { red, green, blue }) => assert_eq!((red, green, blue), (r, g, b)),
            other => panic!("unexpected {:?}", other),
        }
    }
}
