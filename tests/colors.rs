use birthday_bot::color::{ColorUtils, HexColorError};

#[test]
fn six_digit_codes_with_or_without_hash() {
    assert_eq!(ColorUtils::hex_to_colour("#ff5733"), Ok((255, 87, 51)));
    assert_eq!(ColorUtils::hex_to_colour("FF5733"), Ok((255, 87, 51)));
    assert_eq!(ColorUtils::hex_to_colour("#000000"), Ok((0, 0, 0)));
}

#[test]
fn short_codes_have_the_wrong_length() {
    assert_eq!(ColorUtils::hex_to_colour("#abc"), Err(HexColorError::InvalidLength));
    assert_eq!(ColorUtils::validate_hex_color("abc"), Err(HexColorError::InvalidLength));
    assert_eq!(ColorUtils::validate_hex_color("#abc"), Err(HexColorError::InvalidLength));
}

#[test]
fn malformed_codes_are_invalid() {
    assert_eq!(ColorUtils::hex_to_colour("zzzzzz"), Err(HexColorError::InvalidHex));
    assert_eq!(ColorUtils::hex_to_colour("#ff57"), Err(HexColorError::InvalidHex));
    assert_eq!(ColorUtils::hex_to_colour("##ff5733"), Err(HexColorError::InvalidHex));
    assert_eq!(ColorUtils::hex_to_colour(""), Err(HexColorError::InvalidHex));
    assert_eq!(ColorUtils::validate_hex_color("#ff57331"), Err(HexColorError::InvalidHex));
}

#[test]
fn validation_accepts_full_codes() {
    assert_eq!(ColorUtils::validate_hex_color("#ff5733"), Ok(()));
    assert_eq!(ColorUtils::validate_hex_color("ff5733"), Ok(()));
}

#[test]
fn verdict_given_the_pattern_result() {
    assert_eq!(ColorUtils::check_hex_color("ff5733", false), Err(HexColorError::InvalidHex));
    assert_eq!(ColorUtils::check_hex_color("ff57", true), Err(HexColorError::InvalidLength));
    assert_eq!(ColorUtils::check_hex_color("ff5733", true), Ok(()));
    assert_eq!(ColorUtils::colour_of_checked("0a0B0c", true), Ok((10, 11, 12)));
    assert_eq!(ColorUtils::colour_of_checked("+f0000", true), Ok((15, 0, 0)));
    assert_eq!(ColorUtils::colour_of_checked("#f0000", true), Err(HexColorError::InvalidHex));
    assert_eq!(ColorUtils::colour_of_checked("ff5733", false), Err(HexColorError::InvalidHex));
}

#[test]
fn error_messages() {
    assert_eq!(HexColorError::InvalidLength.message(), "Invalid hex color length.");
    assert_eq!(HexColorError::InvalidHex.message(), "Invalid hex color string.");
}
