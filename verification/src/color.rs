//! RGBA colors and the resolution of color codes.
//!
//! A color code is either a hex literal (`#ff0000`, with or without
//! the leading `#` once tokenized) or one of a small set of predefined
//! names; anything unresolved falls back to opaque black.

use vstd::prelude::*;

verus! {

use vstd::string::StringSliceAdditionalSpecFns;
use vstd::string::StrSliceExecFns;
use vstd::string::StringExecFns;

/// An RGBA color with four 8-bit channels.
#[derive(Debug, Clone, Copy, PartialEq, Eq, Structural)]
pub struct Color {
    pub red: u8,
    pub green: u8,
    pub blue: u8,
    pub alpha: u8,
}

impl Default for Color {
    /// The all-zero color: transparent black.
    fn default() -> (c: Color)
        ensures
            c == (Color { red: 0, green: 0, blue: 0, alpha: 0 }),
    {
        Color { red: 0, green: 0, blue: 0, alpha: 0 }
    }
}

/// ASCII hex digit bytes (both cases).
pub open spec fn is_hex_digit_byte(b: u8) -> bool {
    (0x30 <= b && b <= 0x39) || (0x41 <= b && b <= 0x46) || (0x61 <= b && b <= 0x66)
}

/// The value of an ASCII hex digit byte (`0` on other bytes).
pub open spec fn hex_digit_byte_val(b: u8) -> int {
    if 0x30 <= b && b <= 0x39 {
        b - 0x30
    } else if 0x41 <= b && b <= 0x46 {
        b - 0x41 + 10
    } else if 0x61 <= b && b <= 0x66 {
        b - 0x61 + 10
    } else {
        0
    }
}

/// Whether a byte string is well-formed hex: even length, hex digits
/// throughout.
pub open spec fn valid_hex(bs: Seq<u8>) -> bool {
    bs.len() % 2 == 0 && forall|i: int| 0 <= i < bs.len() ==> is_hex_digit_byte(bs[i])
}

/// The bytes a well-formed hex string denotes, two digits each.
pub open spec fn hex_decoded(bs: Seq<u8>) -> Seq<u8> {
    Seq::new((bs.len() / 2) as nat, |i: int| (hex_digit_byte_val(bs[2 * i]) * 16 + hex_digit_byte_val(bs[2 * i + 1])) as u8)
}

/// Decodes a hex string to bytes.
///
/// Relies on `hex::decode`: it returns `Ok` exactly on an even-length
/// string of ASCII hex digits (either case), and then yields one byte
/// per digit pair, high digit first.
#[verifier::external_body]
fn hex_decode(s: &str) -> (r: Option<Vec<u8>>)
    ensures
        (r is Some) == valid_hex(s.spec_bytes()),
        r matches Some(v) ==> v@ == hex_decoded(s.spec_bytes()),
{
    hex::decode(s).ok()
}

/// ASCII hex digit characters (both cases).
pub open spec fn is_hex_digit_char(c: char) -> bool {
    is_hex_digit_byte(c as u8) && (c as u32) < 128
}

/// The value of an ASCII hex digit character (`0` on others).
pub open spec fn hex_digit_char_val(c: char) -> int {
    hex_digit_byte_val(c as u8)
}

fn hex_digit_char(c: char) -> (r: bool)
    ensures
        r == is_hex_digit_char(c),
{
    let u = c as u32;
    (0x30 <= u && u <= 0x39) || (0x41 <= u && u <= 0x46) || (0x61 <= u && u <= 0x66)
}

/// Whether a text is exactly six hex digit characters.
pub open spec fn spec_hex_digits_ok(t: Seq<char>) -> bool {
    t.len() == 6 && (forall|i: int| 0 <= i < 6 ==> is_hex_digit_char(#[trigger] t[i]))
}

/// The color six hex digit characters denote, or the default
/// (all-zero) color when the text is not six hex digits.
pub open spec fn spec_hex_digits_color(t: Seq<char>) -> Color {
    if spec_hex_digits_ok(t) {
        Color {
            red: (hex_digit_char_val(t[0]) * 16 + hex_digit_char_val(t[1])) as u8,
            green: (hex_digit_char_val(t[2]) * 16 + hex_digit_char_val(t[3])) as u8,
            blue: (hex_digit_char_val(t[4]) * 16 + hex_digit_char_val(t[5])) as u8,
            alpha: 255,
        }
    } else {
        Color { red: 0, green: 0, blue: 0, alpha: 0 }
    }
}

/// Whether a string is a well-formed hex color literal: six hex
/// digits, optionally behind a `#` in the seven-character form.
pub open spec fn spec_hex_resolvable(s: Seq<char>) -> bool {
    if s.len() == 7 && s[0] == '#' {
        spec_hex_digits_ok(s.subrange(1, 7))
    } else {
        spec_hex_digits_ok(s)
    }
}

/// The raw reading of a hex color literal: six hex digits (after an
/// optional `#` prefix counted in a seven-character form) decode to the
/// red, green and blue channels with alpha 255; any other string reads
/// as the all-zero color. Color resolution replaces that unresolved
/// reading with opaque black; see [`spec_hex_color_or_black`].
pub open spec fn spec_from_hex(s: Seq<char>) -> Color {
    if s.len() == 7 && s[0] == '#' {
        spec_hex_digits_color(s.subrange(1, 7))
    } else {
        spec_hex_digits_color(s)
    }
}

/// The color a hex code contributes to resolution: the decoded color
/// when the code is well formed, else the opaque-black fallback.
pub open spec fn spec_hex_color_or_black(s: Seq<char>) -> Color {
    if spec_hex_resolvable(s) {
        spec_from_hex(s)
    } else {
        Color { red: 0, green: 0, blue: 0, alpha: 255 }
    }
}

/// The raw hex reading marks resolution in its alpha channel: a
/// well-formed literal decodes opaque, anything else reads all-zero.
pub proof fn lemma_from_hex_alpha(s: Seq<char>)
    ensures
        (spec_from_hex(s).alpha == 255) == spec_hex_resolvable(s),
        !spec_hex_resolvable(s) ==> spec_from_hex(s) == (Color {
            red: 0,
            green: 0,
            blue: 0,
            alpha: 0,
        }),
{
    if s.len() == 7 && s[0] == '#' {
        assert(spec_from_hex(s) == spec_hex_digits_color(s.subrange(1, 7)));
    } else {
        assert(spec_from_hex(s) == spec_hex_digits_color(s));
    }
}

impl Color {
    /// An opaque color from its three channels.
    pub fn from_rgb(red: u8, green: u8, blue: u8) -> (c: Color)
        ensures
            c == (Color { red: red, green: green, blue: blue, alpha: 255 }),
    {
        Color { red: red, green: green, blue: blue, alpha: 255 }
    }

    /// Reads a hex color literal; see [`spec_from_hex`].
    pub fn from_hex(hex: &str) -> (c: Color)
        ensures
            c == spec_from_hex(hex@),
    {
        let n = hex.unicode_len();
        let stripped: &str = if n == 7 && hex.get_char(0) == '#' {
            hex.substring_char(1, 7)
        } else {
            hex
        };
        let ghost t = stripped@;
        let m = stripped.unicode_len();
        if m == 6 {
            let all_hex = hex_digit_char(stripped.get_char(0)) && hex_digit_char(
                stripped.get_char(1),
            ) && hex_digit_char(stripped.get_char(2)) && hex_digit_char(stripped.get_char(3))
                && hex_digit_char(stripped.get_char(4)) && hex_digit_char(stripped.get_char(5));
            if all_hex {
                proof {
                    broadcast use vstd::utf8::char_is_scalar;

                    assert(spec_hex_digits_ok(t)) by {
                        assert forall|i: int| 0 <= i < 6 implies is_hex_digit_char(
                            #[trigger] t[i],
                        ) by {
                            assert(is_hex_digit_char(t[0]) && is_hex_digit_char(t[1])
                                && is_hex_digit_char(t[2]) && is_hex_digit_char(t[3])
                                && is_hex_digit_char(t[4]) && is_hex_digit_char(t[5]));
                        }
                    }

                    assert forall|j: int|
                        0 <= j < t.len() implies '\0' <= #[trigger] t[j] <= '\u{7f}' by {
                        assert(is_hex_digit_char(t[0]) && is_hex_digit_char(t[1])
                            && is_hex_digit_char(t[2]) && is_hex_digit_char(t[3])
                            && is_hex_digit_char(t[4]) && is_hex_digit_char(t[5]));
                    }
                    assert(vstd::string::is_ascii(stripped));
                    vstd::string::is_ascii_spec_bytes(stripped);
                    assert(valid_hex(stripped.spec_bytes())) by {
                        assert forall|j: int|
                            0 <= j < stripped.spec_bytes().len() implies is_hex_digit_byte(
                            stripped.spec_bytes()[j],
                        ) by {
                            assert(stripped.spec_bytes()[j] == t[j] as u8);
                            assert(is_hex_digit_char(t[0]) && is_hex_digit_char(t[1])
                                && is_hex_digit_char(t[2]) && is_hex_digit_char(t[3])
                                && is_hex_digit_char(t[4]) && is_hex_digit_char(t[5]));
                        }
                    }
                }
                match hex_decode(stripped) {
                    Some(bytes) => {
                        assert(bytes@.len() == 3);
                        let c = Color {
                            red: bytes[0],
                            green: bytes[1],
                            blue: bytes[2],
                            alpha: 255,
                        };
                        assert(c == spec_from_hex(hex@));
                        return c;
                    },
                    None => {
                        assert(false);
                    },
                }
            } else {
                proof {
                    if spec_hex_digits_ok(t) {
                        assert(is_hex_digit_char(t[0]) && is_hex_digit_char(t[1])
                            && is_hex_digit_char(t[2]) && is_hex_digit_char(t[3])
                            && is_hex_digit_char(t[4]) && is_hex_digit_char(t[5]));
                        assert(false);
                    }
                    assert(spec_hex_digits_color(t) == (Color {
                        red: 0,
                        green: 0,
                        blue: 0,
                        alpha: 0,
                    }));
                }
            }
        }
        Color { red: 0, green: 0, blue: 0, alpha: 0 }
    }
}

/// The color of each predefined name, or `None` for any other code.
pub open spec fn spec_predefined_color(code: Seq<char>) -> Option<Color> {
    if code == "black"@ {
        Some(Color { red: 0x00, green: 0x00, blue: 0x00, alpha: 255 })
    } else if code == "white"@ {
        Some(Color { red: 0xff, green: 0xff, blue: 0xff, alpha: 255 })
    } else if code == "red"@ {
        Some(Color { red: 0xff, green: 0x00, blue: 0x00, alpha: 255 })
    } else if code == "green"@ {
        Some(Color { red: 0x00, green: 0xff, blue: 0x00, alpha: 255 })
    } else if code == "blue"@ {
        Some(Color { red: 0x00, green: 0x00, blue: 0xff, alpha: 255 })
    } else if code == "transparent"@ {
        Some(Color { red: 0, green: 0, blue: 0, alpha: 0 })
    } else {
        None
    }
}

/// The table of predefined color names, in the order of
/// [`spec_predefined_color`].
pub fn get_predefined_colors() -> (table: Vec<(String, Color)>)
    ensures
        table@.len() == 6,
        forall|i: int|
            0 <= i < 6 ==> spec_predefined_color(#[trigger] table@[i].0@) == Some(table@[i].1),
        table@[0].0@ == "black"@,
        table@[1].0@ == "white"@,
        table@[2].0@ == "red"@,
        table@[3].0@ == "green"@,
        table@[4].0@ == "blue"@,
        table@[5].0@ == "transparent"@,
{
    let mut table: Vec<(String, Color)> = Vec::new();
    table.push((String::from_str("black"), Color::from_rgb(0x00, 0x00, 0x00)));
    table.push((String::from_str("white"), Color::from_rgb(0xff, 0xff, 0xff)));
    table.push((String::from_str("red"), Color::from_rgb(0xff, 0x00, 0x00)));
    table.push((String::from_str("green"), Color::from_rgb(0x00, 0xff, 0x00)));
    table.push((String::from_str("blue"), Color::from_rgb(0x00, 0x00, 0xff)));
    table.push(
        (String::from_str("transparent"), Color { red: 0, green: 0, blue: 0, alpha: 0 }),
    );
    proof {
        reveal_strlit("black");
        reveal_strlit("white");
        reveal_strlit("red");
        reveal_strlit("green");
        reveal_strlit("blue");
        reveal_strlit("transparent");
        assert(table@[0].0@ == "black"@ && table@[1].0@ == "white"@ && table@[2].0@ == "red"@
            && table@[3].0@ == "green"@ && table@[4].0@ == "blue"@ && table@[5].0@
            == "transparent"@);
        assert("white"@ != "black"@) by {
            assert("white"@[0] == 'w' && "black"@[0] == 'b');
        }
        assert("green"@ != "black"@) by {
            assert("green"@[0] == 'g' && "black"@[0] == 'b');
        }
        assert("green"@ != "white"@) by {
            assert("green"@[0] == 'g' && "white"@[0] == 'w');
        }
        assert(spec_predefined_color(table@[0].0@) == Some(table@[0].1));
        assert(spec_predefined_color(table@[1].0@) == Some(table@[1].1));
        assert(spec_predefined_color(table@[2].0@) == Some(table@[2].1));
        assert(spec_predefined_color(table@[3].0@) == Some(table@[3].1));
        assert(spec_predefined_color(table@[4].0@) == Some(table@[4].1));
        assert(spec_predefined_color(table@[5].0@) == Some(table@[5].1));
    }
    table
}

/// The name of the fallback color.
pub fn get_default_color_code() -> (code: String)
    ensures
        code@ == "black"@,
{
    String::from_str("black")
}

/// Resolves a hex color code: the decoded color when the code is six
/// hex digits (after an optional `#`), else the opaque-black fallback;
/// see [`spec_hex_color_or_black`].
pub fn hex_color_or_black(code: &str) -> (c: Color)
    ensures
        c == spec_hex_color_or_black(code@),
{
    let c = Color::from_hex(code);
    proof {
        lemma_from_hex_alpha(code@);
    }
    if c.alpha > 0 {
        c
    } else {
        Color { red: 0, green: 0, blue: 0, alpha: 255 }
    }
}

/// The color a code resolves to: a `#`-prefixed code as a hex literal,
/// else a predefined name; anything unresolved — a name outside the
/// table or a malformed hex literal — is opaque black.
pub open spec fn spec_code_to_color(code: Seq<char>) -> Color {
    if code.len() > 0 && code[0] == '#' {
        spec_hex_color_or_black(code)
    } else if spec_predefined_color(code) is Some {
        spec_predefined_color(code)->Some_0
    } else {
        Color { red: 0, green: 0, blue: 0, alpha: 255 }
    }
}

/// Attempts to transform the provided string into a color; see
/// [`spec_code_to_color`]. Supports RGB hex color codes (`#ff0000`)
/// and the predefined names; anything unresolved defaults to opaque
/// black.
pub fn code_to_color(code: &str) -> (c: Color)
    ensures
        c == spec_code_to_color(code@),
{
    if code.unicode_len() > 0 {
        if code.get_char(0) == '#' {
            return hex_color_or_black(code);
        }
    }
    let owned = String::from_str(code);
    if owned == String::from_str("black") {
        Color { red: 0x00, green: 0x00, blue: 0x00, alpha: 255 }
    } else if owned == String::from_str("white") {
        Color { red: 0xff, green: 0xff, blue: 0xff, alpha: 255 }
    } else if owned == String::from_str("red") {
        Color { red: 0xff, green: 0x00, blue: 0x00, alpha: 255 }
    } else if owned == String::from_str("green") {
        Color { red: 0x00, green: 0xff, blue: 0x00, alpha: 255 }
    } else if owned == String::from_str("blue") {
        Color { red: 0x00, green: 0x00, blue: 0xff, alpha: 255 }
    } else if owned == String::from_str("transparent") {
        Color { red: 0, green: 0, blue: 0, alpha: 0 }
    } else {
        Color { red: 0, green: 0, blue: 0, alpha: 255 }
    }
}

} // verus!
