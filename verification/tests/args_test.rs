use u64stream::args::{parse_dimensions, parse_palette, ArgsError};

#[test]
fn test_custom_dimensions() {
    assert_eq!(parse_dimensions("640x480"), Ok((640, 480)));
}

#[test]
fn test_invalid_dimension_format() {
    assert_eq!(parse_dimensions("640"), Err(ArgsError::InvalidFormat));
}

#[test]
fn test_invalid_dimension_separator() {
    assert_eq!(parse_dimensions("640-480"), Err(ArgsError::InvalidFormat));
}

#[test]
fn test_dimensions_too_small() {
    assert_eq!(parse_dimensions("100x100"), Err(ArgsError::TooSmall));
}

#[test]
fn test_dimensions_too_large() {
    assert_eq!(parse_dimensions("10000x10000"), Err(ArgsError::TooLarge));
}

#[test]
fn test_dimensions_not_numbers() {
    assert_eq!(parse_dimensions("abcxdef"), Err(ArgsError::InvalidWidth));
}

#[test]
fn test_minimum_valid_dimensions() {
    assert_eq!(parse_dimensions("320x200"), Ok((320, 200)));
}

#[test]
fn test_maximum_valid_dimensions() {
    assert_eq!(parse_dimensions("5120x3650"), Ok((5120, 3650)));
}

#[test]
fn test_dimensions_missing_height() {
    assert_eq!(parse_dimensions("640x"), Err(ArgsError::InvalidHeight));
}

#[test]
fn test_dimensions_missing_width() {
    assert_eq!(parse_dimensions("x480"), Err(ArgsError::InvalidWidth));
}

#[test]
fn test_dimensions_two_separators() {
    assert_eq!(parse_dimensions("1x2x3"), Err(ArgsError::InvalidFormat));
}

#[test]
fn test_dimensions_plus_sign_accepted() {
    assert_eq!(parse_dimensions("+640x+480"), Ok((640, 480)));
}

#[test]
fn test_dimensions_huge_number_rejected() {
    // More digits than any machine word can hold: not a valid width.
    assert_eq!(
        parse_dimensions("99999999999999999999999999999999x480"),
        Err(ArgsError::InvalidWidth)
    );
}

#[test]
fn test_palette() {
    for (entry, expected) in [
        ("FF0000", 0xFF0000),
        ("00FF00", 0x00FF00),
        ("0000FF", 0x0000FF),
        ("C0C0C0", 0xC0C0C0),
    ] {
        assert_eq!(parse_palette(entry), Ok(expected));
    }
}

#[test]
fn test_palette_invalid_hex() {
    assert_eq!(parse_palette("GGGGGG"), Err(ArgsError::InvalidHex));
}

#[test]
fn test_palette_with_spaces() {
    assert_eq!(parse_palette(" 00FF00"), Ok(0x00FF00));
    assert_eq!(parse_palette(" C0C0C0 "), Ok(0xC0C0C0));
}

#[test]
fn test_palette_lowercase_hex() {
    assert_eq!(parse_palette("ff0000"), Ok(0xFF0000));
    assert_eq!(parse_palette("c0c0c0"), Ok(0xC0C0C0));
}

#[test]
fn test_palette_mixed_case() {
    assert_eq!(parse_palette("Ff0000"), Ok(0xFF0000));
}

#[test]
fn test_palette_empty_is_invalid() {
    assert_eq!(parse_palette(""), Err(ArgsError::InvalidHex));
    assert_eq!(parse_palette("   "), Err(ArgsError::InvalidHex));
}

#[test]
fn test_palette_overflow_is_invalid() {
    // Nine hex digits cannot fit 32 bits.
    assert_eq!(parse_palette("FFFFFFFFF"), Err(ArgsError::InvalidHex));
    // Eight digits still fit.
    assert_eq!(parse_palette("FFFFFFFF"), Ok(0xFFFFFFFF));
}
