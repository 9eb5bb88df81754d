//! RGBA colors.
use vstd::prelude::*;
use vstd::string::StringSliceAdditionalSpecFns;

verus! {

/// An RGBA color, one byte per channel.
#[derive(Clone, Copy, Debug, PartialEq, Eq, Structural)]
pub struct Color {
    pub red: u8,
    pub green: u8,
    pub blue: u8,
    pub alpha: u8,
}

impl Color {
    pub fn new(red: u8, green: u8, blue: u8, alpha: u8) -> (c: Color)
        ensures
            c == (Color { red, green, blue, alpha }),
    {
        Color { red, green, blue, alpha }
    }

    /// Fully transparent black, the color of an empty frame buffer cell.
    pub open spec fn transparent() -> Color {
        Color { red: 0, green: 0, blue: 0, alpha: 0 }
    }
}

impl Default for Color {
    fn default() -> (c: Color)
        ensures
            c == Color::transparent(),
    {
        Color { red: 0, green: 0, blue: 0, alpha: 0 }
    }
}

/// The value of an ASCII hexadecimal digit, either case.
pub open spec fn hex_digit(b: u8) -> Option<u8> {
    if 0x30 <= b <= 0x39 {
        Some((b - 0x30) as u8)
    } else if 0x61 <= b <= 0x66 {
        Some((b - 0x61 + 10) as u8)
    } else if 0x41 <= b <= 0x46 {
        Some((b - 0x41 + 10) as u8)
    } else {
        None
    }
}

/// The byte written by the two hex digits at `s[i]` and `s[i + 1]`.
pub open spec fn hex_byte(s: Seq<u8>, i: int) -> u8 {
    (16 * hex_digit(s[i])->0 + hex_digit(s[i + 1])->0) as u8
}

/// What parsing the bytes of a color string gives: `#RRGGBB` (opaque) or
/// `#RRGGBBAA`, in hex digits of either case.
pub open spec fn parse_color(s: Seq<u8>) -> Result<Color, Seq<char>> {
    if s.len() == 0 || s[0] != 0x23 || (s.len() != 7 && s.len() != 9) {
        Err("not a hex string"@)
    } else if exists|i: int| 1 <= i < s.len() && #[trigger] hex_digit(s[i]) is None {
        Err("invalid digit found in string"@)
    } else {
        Ok(
            Color {
                red: hex_byte(s, 1),
                green: hex_byte(s, 3),
                blue: hex_byte(s, 5),
                alpha: if s.len() == 9 {
                    hex_byte(s, 7)
                } else {
                    0xff
                },
            },
        )
    }
}

/// A color string without a leading `#`, the empty one included, is refused.
pub proof fn lemma_color_needs_hash(s: Seq<u8>)
    requires
        s.len() == 0 || s[0] != 0x23,
    ensures
        parse_color(s) is Err,
{
}

/// A color string with a character after the `#` that is not a hex digit (a
/// sign included) is refused.
pub proof fn lemma_color_needs_hex_digits(s: Seq<u8>, i: int)
    requires
        1 <= i < s.len(),
        hex_digit(s[i]) is None,
    ensures
        parse_color(s) is Err,
{
}

fn hex_digit_value(b: u8) -> (d: Option<u8>)
    ensures
        d == hex_digit(b),
{
    if 0x30 <= b && b <= 0x39 {
        Some(b - 0x30)
    } else if 0x61 <= b && b <= 0x66 {
        Some(b - 0x61 + 10)
    } else if 0x41 <= b && b <= 0x46 {
        Some(b - 0x41 + 10)
    } else {
        None
    }
}

/// Relies on `rand::random`: any byte may come back.
#[verifier::external_body]
fn random_byte() -> u8 {
    rand::random::<u8>()
}

impl Color {
    /// Parses `#RRGGBB` (alpha 0xff) or `#RRGGBBAA`. A string that does not
    /// start with `#` or has another length is "not a hex string"; one with a
    /// character that is not a hex digit has an "invalid digit found in string".
    pub fn try_from(value: &str) -> (r: Result<Color, String>)
        ensures
            match r {
                Ok(c) => parse_color(value.spec_bytes()) == Ok::<Color, Seq<char>>(c),
                Err(e) => parse_color(value.spec_bytes()) == Err::<Color, Seq<char>>(e@),
            },
    {
        let s = value.as_bytes();
        let n = s.len();
        if n == 0 || s[0] != 0x23 || (n != 7 && n != 9) {
            return Err("not a hex string".to_owned());
        }
        let mut digits: Vec<u8> = Vec::new();
        let mut i: usize = 1;
        while i < n
            invariant
                s@ == value.spec_bytes(),
                n == s@.len(),
                n == 7 || n == 9,
                s@[0] == 0x23,
                1 <= i <= n,
                digits@.len() == i - 1,
                forall|j: int| 1 <= j < i ==> hex_digit(#[trigger] s@[j]) == Some(digits@[j - 1]),
            decreases n - i,
        {
            match hex_digit_value(s[i]) {
                Some(d) => digits.push(d),
                None => {
                    assert(hex_digit(s@[i as int]) is None);
                    return Err("invalid digit found in string".to_owned());
                },
            }
            i = i + 1;
        }
        let red = 16 * digits[0] + digits[1];
        let green = 16 * digits[2] + digits[3];
        let blue = 16 * digits[4] + digits[5];
        let alpha = if n == 9 {
            16 * digits[6] + digits[7]
        } else {
            0xff
        };
        assert(forall|j: int| 1 <= j < n ==> hex_digit(#[trigger] s@[j]) is Some);
        Ok(Color { red, green, blue, alpha })
    }

    /// A random opaque color.
    pub fn random() -> (c: Color)
        ensures
            c.alpha == 0xff,
    {
        Color { red: random_byte(), green: random_byte(), blue: random_byte(), alpha: 0xff }
    }
}

} // verus!
