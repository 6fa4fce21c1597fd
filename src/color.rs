//! RGBA colors, their hexadecimal form, and color parameters.

use vstd::prelude::*;

use crate::strings::{push_char, str_eq};

verus! {

/// An RGBA color, one byte per channel. An alpha of 0 is fully transparent
/// whatever the other channels hold.
#[derive(Debug, Clone, Copy, PartialEq, Eq, Structural, Default)]
pub struct Color {
    pub r: u8,
    pub g: u8,
    pub b: u8,
    pub a: u8,
}

/// The uppercase hexadecimal digit for a value below 16.
pub open spec fn hex_digit_char(n: u8) -> char {
    if n < 10 {
        (n + 48) as char
    } else {
        (n + 55) as char
    }
}

/// Two uppercase hexadecimal digits for a byte.
pub open spec fn hex_byte(b: u8) -> Seq<char> {
    seq![hex_digit_char(b / 16), hex_digit_char(b % 16)]
}

/// The value of a hexadecimal digit of either case.
pub open spec fn hex_value(c: char) -> Option<u8> {
    if '0' <= c && c <= '9' {
        Some((c as u32 - '0' as u32) as u8)
    } else if 'a' <= c && c <= 'f' {
        Some((c as u32 - 'a' as u32 + 10) as u8)
    } else if 'A' <= c && c <= 'F' {
        Some((c as u32 - 'A' as u32 + 10) as u8)
    } else {
        None
    }
}

pub open spec fn all_hex(s: Seq<char>) -> bool {
    forall|i: int| 0 <= i < s.len() ==> (#[trigger] hex_value(s[i])) is Some
}

/// The byte written by the two hexadecimal digits at `i` and `i + 1`.
pub open spec fn hex_pair(s: Seq<char>, i: int) -> u8 {
    (hex_value(s[i])->0 * 16 + hex_value(s[i + 1])->0) as u8
}

/// The byte written by one hexadecimal digit repeated (`"a"` is `0xaa`).
pub open spec fn hex_twice(s: Seq<char>, i: int) -> u8 {
    (hex_value(s[i])->0 * 17) as u8
}

pub open spec fn spec_color(r: u8, g: u8, b: u8, a: u8) -> Color {
    Color { r, g, b, a }
}

/// The colors known by name.
pub open spec fn named_color(s: Seq<char>) -> Option<Color> {
    if s == "transparent"@ {
        Some(spec_color(0, 0, 0, 0))
    } else if s == "black"@ {
        Some(spec_color(0, 0, 0, 255))
    } else if s == "red"@ {
        Some(spec_color(255, 0, 0, 255))
    } else if s == "green"@ {
        Some(spec_color(0, 255, 0, 255))
    } else if s == "blue"@ {
        Some(spec_color(0, 0, 255, 255))
    } else if s == "yellow"@ {
        Some(spec_color(255, 255, 0, 255))
    } else if s == "fuchsia"@ || s == "magenta"@ {
        Some(spec_color(255, 0, 255, 255))
    } else if s == "aqua"@ || s == "cyan"@ {
        Some(spec_color(0, 255, 255, 255))
    } else if s == "white"@ {
        Some(spec_color(255, 255, 255, 255))
    } else {
        None
    }
}

/// A color written in hexadecimal: `RRGGBB`, `RRGGBBAA`, `RGB` or `RGBA`.
/// Colors without an alpha digit are opaque.
pub open spec fn hex_color(s: Seq<char>) -> Option<Color> {
    if !all_hex(s) {
        None
    } else if s.len() == 6 {
        Some(spec_color(hex_pair(s, 0), hex_pair(s, 2), hex_pair(s, 4), 255))
    } else if s.len() == 8 {
        Some(spec_color(hex_pair(s, 0), hex_pair(s, 2), hex_pair(s, 4), hex_pair(s, 6)))
    } else if s.len() == 3 {
        Some(spec_color(hex_twice(s, 0), hex_twice(s, 1), hex_twice(s, 2), 255))
    } else if s.len() == 4 {
        Some(spec_color(hex_twice(s, 0), hex_twice(s, 1), hex_twice(s, 2), hex_twice(s, 3)))
    } else {
        None
    }
}

/// What a color parameter means: a name first, hexadecimal otherwise.
pub open spec fn color_spec_of(s: Seq<char>) -> Option<Color> {
    match named_color(s) {
        Some(c) => Some(c),
        None => hex_color(s),
    }
}

impl Color {
    pub fn transparent() -> (c: Color)
        ensures
            c == spec_color(0, 0, 0, 0),
    {
        Color { r: 0, g: 0, b: 0, a: 0 }
    }

    pub fn black() -> (c: Color)
        ensures
            c == spec_color(0, 0, 0, 255),
    {
        Color { r: 0, g: 0, b: 0, a: 255 }
    }

    pub fn red() -> (c: Color)
        ensures
            c == spec_color(255, 0, 0, 255),
    {
        Color { r: 255, g: 0, b: 0, a: 255 }
    }

    pub fn green() -> (c: Color)
        ensures
            c == spec_color(0, 255, 0, 255),
    {
        Color { r: 0, g: 255, b: 0, a: 255 }
    }

    pub fn blue() -> (c: Color)
        ensures
            c == spec_color(0, 0, 255, 255),
    {
        Color { r: 0, g: 0, b: 255, a: 255 }
    }

    pub fn yellow() -> (c: Color)
        ensures
            c == spec_color(255, 255, 0, 255),
    {
        Color { r: 255, g: 255, b: 0, a: 255 }
    }

    pub fn fuchsia() -> (c: Color)
        ensures
            c == spec_color(255, 0, 255, 255),
    {
        Color { r: 255, g: 0, b: 255, a: 255 }
    }

    pub fn aqua() -> (c: Color)
        ensures
            c == spec_color(0, 255, 255, 255),
    {
        Color { r: 0, g: 255, b: 255, a: 255 }
    }

    pub fn white() -> (c: Color)
        ensures
            c == spec_color(255, 255, 255, 255),
    {
        Color { r: 255, g: 255, b: 255, a: 255 }
    }

    pub fn new(r: u8, g: u8, b: u8, a: u8) -> (c: Color)
        ensures
            c == spec_color(r, g, b, a),
    {
        Color { r, g, b, a }
    }

    /// An opaque color.
    pub fn from_rgb(r: u8, g: u8, b: u8) -> (c: Color)
        ensures
            c == spec_color(r, g, b, 255),
    {
        Color { r, g, b, a: 255 }
    }

    /// The channels in the order red, green, blue, alpha.
    pub fn to_bytes(&self) -> (r: [u8; 4])
        ensures
            r@ == seq![self.r, self.g, self.b, self.a],
    {
        [self.r, self.g, self.b, self.a]
    }

    /// A color from exactly four bytes, red first.
    pub fn from_slice(rgba: &[u8]) -> (r: Option<Color>)
        ensures
            r == (if rgba@.len() == 4 {
                Some(spec_color(rgba@[0], rgba@[1], rgba@[2], rgba@[3]))
            } else {
                None
            }),
    {
        if rgba.len() == 4 {
            Some(Color { r: rgba[0], g: rgba[1], b: rgba[2], a: rgba[3] })
        } else {
            None
        }
    }

    /// Eight uppercase hexadecimal digits, `RRGGBBAA`.
    pub fn as_hex(&self) -> (r: String)
        ensures
            r@ == hex_byte(self.r) + hex_byte(self.g) + hex_byte(self.b) + hex_byte(self.a),
    {
        let mut s = String::new();
        push_hex_byte(&mut s, self.r);
        push_hex_byte(&mut s, self.g);
        push_hex_byte(&mut s, self.b);
        push_hex_byte(&mut s, self.a);
        s
    }

    /// Multiplies the red, green and blue channels by `num / den`, clamping
    /// at 255 and rounding down; alpha is kept.
    pub fn scale_rgb(&self, num: u32, den: u32) -> (c: Color)
        requires
            den > 0,
        ensures
            c == spec_color(
                scaled_channel(self.r, num, den),
                scaled_channel(self.g, num, den),
                scaled_channel(self.b, num, den),
                self.a,
            ),
    {
        Color {
            r: scale_channel(self.r, num, den),
            g: scale_channel(self.g, num, den),
            b: scale_channel(self.b, num, den),
            a: self.a,
        }
    }
}

pub open spec fn scaled_channel(c: u8, num: u32, den: u32) -> u8 {
    let v = c as int * num as int / den as int;
    if v > 255 {
        255
    } else {
        v as u8
    }
}

fn scale_channel(c: u8, num: u32, den: u32) -> (r: u8)
    requires
        den > 0,
    ensures
        r == scaled_channel(c, num, den),
{
    assert((c as u64) * (num as u64) <= 255 * 0xffff_ffffu64) by (nonlinear_arith)
        requires
            c <= 255,
            num <= 0xffff_ffffu32,
    ;
    let v: u64 = (c as u64) * (num as u64) / (den as u64);
    if v > 255 {
        255
    } else {
        v as u8
    }
}

fn hex_digit(n: u8) -> (c: char)
    requires
        n < 16,
    ensures
        c == hex_digit_char(n),
{
    if n < 10 {
        (n + 48) as char
    } else {
        (n + 55) as char
    }
}

fn push_hex_byte(s: &mut String, b: u8)
    ensures
        final(s)@ == old(s)@ + hex_byte(b),
{
    push_char(s, hex_digit(b / 16));
    push_char(s, hex_digit(b % 16));
    assert(final(s)@ =~= old(s)@ + hex_byte(b));
}

/// The value of a hexadecimal digit of either case.
pub fn hex_value_of(c: char) -> (r: Option<u8>)
    ensures
        r == hex_value(c),
{
    if '0' <= c && c <= '9' {
        Some((c as u32 - '0' as u32) as u8)
    } else if 'a' <= c && c <= 'f' {
        Some((c as u32 - 'a' as u32 + 10) as u8)
    } else if 'A' <= c && c <= 'F' {
        Some((c as u32 - 'A' as u32 + 10) as u8)
    } else {
        None
    }
}

fn named(s: &str) -> (r: Option<Color>)
    ensures
        r == named_color(s@),
{
    if str_eq(s, "transparent") {
        Some(Color::transparent())
    } else if str_eq(s, "black") {
        Some(Color::black())
    } else if str_eq(s, "red") {
        Some(Color::red())
    } else if str_eq(s, "green") {
        Some(Color::green())
    } else if str_eq(s, "blue") {
        Some(Color::blue())
    } else if str_eq(s, "yellow") {
        Some(Color::yellow())
    } else if str_eq(s, "fuchsia") || str_eq(s, "magenta") {
        Some(Color::fuchsia())
    } else if str_eq(s, "aqua") || str_eq(s, "cyan") {
        Some(Color::aqua())
    } else if str_eq(s, "white") {
        Some(Color::white())
    } else {
        None
    }
}

/// Parses a color parameter: one of the color names, or 3, 4, 6 or 8
/// hexadecimal digits (`RGB`, `RGBA`, `RRGGBB`, `RRGGBBAA`).
pub fn parse_color(s: &str) -> (r: Option<Color>)
    ensures
        r == color_spec_of(s@),
{
    let by_name = named(s);
    if let Some(c) = by_name {
        return Some(c);
    }
    assert(named_color(s@) is None);
    let len = s.unicode_len();
    if len != 3 && len != 4 && len != 6 && len != 8 {
        return None;
    }
    let mut digits: Vec<u8> = Vec::new();
    let mut i: usize = 0;
    while i < len
        invariant
            named_color(s@) is None,
            len == s@.len(),
            i <= len,
            digits@.len() == i,
            forall|j: int| 0 <= j < i ==> hex_value(s@[j]) == Some(#[trigger] digits@[j]),
        decreases len - i,
    {
        match hex_value_of(s.get_char(i)) {
            Some(d) => digits.push(d),
            None => {
                assert(!all_hex(s@)) by {
                    assert(hex_value(s@[i as int]) is None);
                }
                return None;
            },
        }
        i = i + 1;
    }
    assert(all_hex(s@)) by {
        assert forall|j: int| 0 <= j < s@.len() implies (#[trigger] hex_value(s@[j])) is Some by {
            assert(hex_value(s@[j]) == Some(digits@[j]));
        }
    }
    proof {
        assert forall|j: int| 0 <= j < len implies (#[trigger] digits@[j]) < 16 by {
            assert(hex_value(s@[j]) == Some(digits@[j]));
        }
    }
    let c = if len == 6 {
        Color::from_rgb(digits[0] * 16 + digits[1], digits[2] * 16 + digits[3], digits[4] * 16 + digits[5])
    } else if len == 8 {
        Color::new(
            digits[0] * 16 + digits[1],
            digits[2] * 16 + digits[3],
            digits[4] * 16 + digits[5],
            digits[6] * 16 + digits[7],
        )
    } else if len == 3 {
        Color::from_rgb(digits[0] * 17, digits[1] * 17, digits[2] * 17)
    } else {
        Color::new(digits[0] * 17, digits[1] * 17, digits[2] * 17, digits[3] * 17)
    };
    Some(c)
}

/// The color that `s` names, or `fallback` where there is no parameter or it
/// names no color.
pub fn color_or(s: Option<&str>, fallback: Color) -> (r: Color)
    ensures
        r == (match s {
            Some(s) => match color_spec_of(s@) {
                Some(c) => c,
                None => fallback,
            },
            None => fallback,
        }),
{
    match s {
        Some(s) => match parse_color(s) {
            Some(c) => c,
            None => fallback,
        },
        None => fallback,
    }
}

} // verus!
