//! Hex colour codes (`#ff5733`, `ff5733`) and their red, green and blue parts.
use vstd::prelude::*;
use vstd::string::*;
use vstd::utf8::{encode_utf8, is_ascii_chars};

verus! {

/// Shape a colour code must have: an optional `#`, then six or three hex digits.
pub const HEX_COLOR_PATTERN: &'static str = "^#?([A-Fa-f0-9]{6}|[A-Fa-f0-9]{3})$";

/// Why a colour code was refused.
#[derive(Clone, Copy, Debug, PartialEq, Eq, Structural)]
pub enum HexColorError {
    InvalidLength,
    InvalidHex,
}

impl HexColorError {
    /// A sentence describing the error.
    pub fn message(&self) -> (r: &'static str)
        ensures
            r@ == (match self {
                HexColorError::InvalidLength => "Invalid hex color length."@,
                HexColorError::InvalidHex => "Invalid hex color string."@,
            }),
    {
        match self {
            HexColorError::InvalidLength => "Invalid hex color length.",
            HexColorError::InvalidHex => "Invalid hex color string.",
        }
    }
}

/// Whether `text` matches the regular expression `pattern` (false where the
/// pattern does not compile).
pub uninterp spec fn regex_is_match(pattern: Seq<char>, text: Seq<char>) -> bool;

/// Relies on regex's `Regex::new` and `Regex::is_match`: the answer depends on
/// the pattern and the text alone.
#[verifier::external_body]
fn regex_matches(pattern: &str, text: &str) -> (r: bool)
    ensures
        r == regex_is_match(pattern@, text@),
{
    match regex::Regex::new(pattern) {
        Ok(re) => re.is_match(text),
        Err(_) => false,
    }
}

/// Value of a hexadecimal digit.
pub open spec fn hex_digit_value(c: char) -> Option<u8> {
    if '0' <= c && c <= '9' {
        Some((c as u32 - '0' as u32) as u8)
    } else if 'a' <= c && c <= 'f' {
        Some((c as u32 - 'a' as u32 + 10) as u8)
    } else if 'A' <= c && c <= 'F' {
        Some((c as u32 - 'A' as u32 + 10) as u8)
    } else {
        None
    }
}

/// A two-character base-16 byte as `u8::from_str_radix` reads it: two hex
/// digits, or a `+` sign and one digit.
pub open spec fn hex_pair_value(a: char, b: char) -> Option<u8> {
    if a == '+' {
        hex_digit_value(b)
    } else {
        match (hex_digit_value(a), hex_digit_value(b)) {
            (Some(x), Some(y)) => Some((16 * x + y) as u8),
            _ => None,
        }
    }
}

/// Length in bytes of `code` encoded in UTF-8, as `str::len` gives it.
pub open spec fn utf8_len(code: Seq<char>) -> usize {
    encode_utf8(code).len() as usize
}

/// The verdict on a code, given whether it matched the pattern: the shape
/// first, then the length in bytes, which must be 6 or 7.
pub open spec fn validation_spec(matched: bool, code: Seq<char>) -> Result<(), HexColorError> {
    if !matched {
        Err(HexColorError::InvalidHex)
    } else if utf8_len(code) != 7 && utf8_len(code) != 6 {
        Err(HexColorError::InvalidLength)
    } else {
        Ok(())
    }
}

/// The colour of a code without its leading `#`, given whether it matched the
/// pattern: three byte pairs read in base 16 once the code is valid.
pub open spec fn colour_spec(matched: bool, code: Seq<char>) -> Result<(u8, u8, u8), HexColorError> {
    match validation_spec(matched, code) {
        Err(e) => Err(e),
        Ok(()) => if !is_ascii_chars(code) {
            Err(HexColorError::InvalidHex)
        } else {
            match (
                hex_pair_value(code[0], code[1]),
                hex_pair_value(code[2], code[3]),
                hex_pair_value(code[4], code[5]),
            ) {
                (Some(r), Some(g), Some(b)) => Ok((r, g, b)),
                _ => Err(HexColorError::InvalidHex),
            }
        },
    }
}

/// `code` without one leading `#`.
pub open spec fn strip_hash(code: Seq<char>) -> Seq<char> {
    if code.len() > 0 && code[0] == '#' {
        code.subrange(1, code.len() as int)
    } else {
        code
    }
}

fn hex_digit(c: char) -> (r: Option<u8>)
    ensures
        r == hex_digit_value(c),
{
    if '0' <= c && c <= '9' {
        Some((c as u32 - '0' as u32) as u8)
    } else if 'a' <= c && c <= 'f' {
        Some((c as u32 - 'a' as u32 + 10) as u8)
    } else if 'A' <= c && c <= 'F' {
        Some((c as u32 - 'A' as u32 + 10) as u8)
    } else {
        None
    }
}

fn hex_pair(a: char, b: char) -> (r: Option<u8>)
    ensures
        r == hex_pair_value(a, b),
{
    if a == '+' {
        hex_digit(b)
    } else {
        match (hex_digit(a), hex_digit(b)) {
            (Some(x), Some(y)) => Some(16 * x + y),
            _ => None,
        }
    }
}

/// Colour-code helpers.
pub struct ColorUtils;

impl ColorUtils {
    /// The verdict on `hex` given whether it matched `HEX_COLOR_PATTERN`.
    pub fn check_hex_color(hex: &str, matched: bool) -> (r: Result<(), HexColorError>)
        ensures
            r == validation_spec(matched, hex@),
    {
        if !matched {
            return Err(HexColorError::InvalidHex);
        }
        if hex.len() != 7 && hex.len() != 6 {
            return Err(HexColorError::InvalidLength);
        }
        Ok(())
    }

    /// Checks that `hex` has the shape of a colour code and 6 or 7 bytes.
    pub fn validate_hex_color(hex: &str) -> (r: Result<(), HexColorError>)
        ensures
            r == validation_spec(regex_is_match(HEX_COLOR_PATTERN@, hex@), hex@),
    {
        let matched = regex_matches(HEX_COLOR_PATTERN, hex);
        ColorUtils::check_hex_color(hex, matched)
    }

    /// The colour of `code` (no leading `#`) given whether it matched
    /// `HEX_COLOR_PATTERN`.
    pub fn colour_of_checked(code: &str, matched: bool) -> (r: Result<(u8, u8, u8), HexColorError>)
        ensures
            r == colour_spec(matched, code@),
    {
        ColorUtils::check_hex_color(code, matched)?;
        if !code.is_ascii() {
            return Err(HexColorError::InvalidHex);
        }
        proof {
            vstd::string::is_ascii_spec_bytes(code);
        }
        let r = hex_pair(code.get_char(0), code.get_char(1));
        let g = hex_pair(code.get_char(2), code.get_char(3));
        let b = hex_pair(code.get_char(4), code.get_char(5));
        match (r, g, b) {
            (Some(r), Some(g), Some(b)) => Ok((r, g, b)),
            _ => Err(HexColorError::InvalidHex),
        }
    }

    /// The red, green and blue parts of a colour code such as `#ff5733`.
    pub fn hex_to_colour(hex: &str) -> (r: Result<(u8, u8, u8), HexColorError>)
        ensures
            r == colour_spec(regex_is_match(HEX_COLOR_PATTERN@, strip_hash(hex@)), strip_hash(hex@)),
    {
        let n = hex.unicode_len();
        let code = if n > 0 && hex.get_char(0) == '#' {
            hex.substring_char(1, n)
        } else {
            hex
        };
        let matched = regex_matches(HEX_COLOR_PATTERN, code);
        ColorUtils::colour_of_checked(code, matched)
    }
}

} // verus!
