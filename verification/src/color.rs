//! Colors: named or `#rrggbb` styled colors, and the packed 32-bit pixel
//! color used by bitmaps and the atlas.

use crate::strutil::{spec_ascii_lowercase, ascii_lowercase, string_push};
use vstd::prelude::*;

verus! {

/// An 8-bit-per-channel sRGB color.
#[derive(Debug, Clone, Copy, Default, Eq, PartialEq, Hash, Structural)]
pub struct RgbColor {
    pub red: u8,
    pub green: u8,
    pub blue: u8,
}

/// The value of one hexadecimal digit, upper or lower case.
pub open spec fn spec_hex_val(c: char) -> Option<u8> {
    let u = c as u32;
    if 48 <= u && u <= 57 {
        Some((u - 48) as u8)
    } else if 97 <= u && u <= 102 {
        Some((u - 87) as u8)
    } else if 65 <= u && u <= 70 {
        Some((u - 55) as u8)
    } else {
        None
    }
}

/// The lower-case hexadecimal digit for a value below 16.
pub open spec fn spec_hex_char(v: u8) -> char {
    if v < 10 {
        ((48 + v) as u8) as char
    } else {
        ((87 + v) as u8) as char
    }
}

/// What parsing a `#rrggbb` string yields: the color, exactly when the text
/// is a `#` followed by six hexadecimal digits.
pub open spec fn spec_parse_rgb(s: Seq<char>) -> Option<RgbColor> {
    if s.len() == 7 && s[0] == '#' && spec_hex_val(s[1]) is Some && spec_hex_val(s[2]) is Some
        && spec_hex_val(s[3]) is Some && spec_hex_val(s[4]) is Some && spec_hex_val(s[5]) is Some
        && spec_hex_val(s[6]) is Some {
        Some(
            RgbColor {
                red: (spec_hex_val(s[1]).unwrap() * 16 + spec_hex_val(s[2]).unwrap()) as u8,
                green: (spec_hex_val(s[3]).unwrap() * 16 + spec_hex_val(s[4]).unwrap()) as u8,
                blue: (spec_hex_val(s[5]).unwrap() * 16 + spec_hex_val(s[6]).unwrap()) as u8,
            },
        )
    } else {
        None
    }
}

/// The `#rrggbb` rendering of a color, lower-case hexadecimal.
pub open spec fn spec_rgb_string(c: RgbColor) -> Seq<char> {
    seq![
        '#',
        spec_hex_char((c.red / 16) as u8),
        spec_hex_char((c.red % 16) as u8),
        spec_hex_char((c.green / 16) as u8),
        spec_hex_char((c.green % 16) as u8),
        spec_hex_char((c.blue / 16) as u8),
        spec_hex_char((c.blue % 16) as u8),
    ]
}

/// What looking a name up in the named-color table yields; the table is
/// fixed, so the result is a function of the (lower-case) name alone.
pub uninterp spec fn named_srgb_of(name: Seq<char>) -> Option<(u8, u8, u8)>;

/// Relies on palette's `named::from_str`: looks an SVG/CSS3 color name up in
/// its fixed table of lower-case names.
#[verifier::external_body]
fn lookup_named_color(name: &str) -> (r: Option<(u8, u8, u8)>)
    ensures
        r == named_srgb_of(name@),
{
    palette::named::from_str(name).map(|c| (c.red, c.green, c.blue))
}

/// The color that [`RgbColor::from_named`] returns for a given name.
pub open spec fn spec_from_named(name: Seq<char>) -> Option<RgbColor> {
    match named_srgb_of(spec_ascii_lowercase(name)) {
        Some(t) => Some(RgbColor { red: t.0, green: t.1, blue: t.2 }),
        None => None,
    }
}

fn hex_val(c: char) -> (r: Option<u8>)
    ensures
        r == spec_hex_val(c),
{
    let u = c as u32;
    if 48 <= u && u <= 57 {
        Some((u - 48) as u8)
    } else if 97 <= u && u <= 102 {
        Some((u - 87) as u8)
    } else if 65 <= u && u <= 70 {
        Some((u - 55) as u8)
    } else {
        None
    }
}

fn hex_char(v: u8) -> (r: char)
    requires
        v < 16,
    ensures
        r == spec_hex_char(v),
{
    if v < 10 {
        (48 + v) as char
    } else {
        (87 + v) as char
    }
}

impl RgbColor {
    pub fn new(red: u8, green: u8, blue: u8) -> (r: Self)
        ensures
            r == (RgbColor { red, green, blue }),
    {
        Self { red, green, blue }
    }

    /// Renders the color as `#rrggbb` in lower-case hexadecimal.
    pub fn to_rgb_string(self) -> (r: String)
        ensures
            r@ == spec_rgb_string(self),
    {
        let mut out = String::new();
        string_push(&mut out, '#');
        string_push(&mut out, hex_char(self.red / 16));
        string_push(&mut out, hex_char(self.red % 16));
        string_push(&mut out, hex_char(self.green / 16));
        string_push(&mut out, hex_char(self.green % 16));
        string_push(&mut out, hex_char(self.blue / 16));
        string_push(&mut out, hex_char(self.blue % 16));
        proof {
            assert(out@ =~= spec_rgb_string(self));
        }
        out
    }

    /// Parses `#rrggbb`; yields the color exactly when the text is a `#`
    /// followed by six hexadecimal digits.
    pub fn from_rgb_str(s: &str) -> (r: Option<RgbColor>)
        ensures
            r == spec_parse_rgb(s@),
    {
        let n: usize = s.unicode_len();
        if n != 7 {
            return None;
        }
        if s.get_char(0) != '#' {
            return None;
        }
        let d1 = hex_val(s.get_char(1));
        let d2 = hex_val(s.get_char(2));
        let d3 = hex_val(s.get_char(3));
        let d4 = hex_val(s.get_char(4));
        let d5 = hex_val(s.get_char(5));
        let d6 = hex_val(s.get_char(6));
        match (d1, d2, d3, d4, d5, d6) {
            (Some(h1), Some(h2), Some(h3), Some(h4), Some(h5), Some(h6)) => Some(
                RgbColor { red: h1 * 16 + h2, green: h3 * 16 + h4, blue: h5 * 16 + h6 },
            ),
            _ => None,
        }
    }

    /// Looks the text up as a named color, ignoring ASCII case.
    pub fn from_named(name: &str) -> (r: Option<RgbColor>)
        ensures
            r == spec_from_named(name@),
    {
        let lower = ascii_lowercase(name);
        match lookup_named_color(lower.as_str()) {
            Some(t) => Some(RgbColor { red: t.0, green: t.1, blue: t.2 }),
            None => None,
        }
    }

    /// Parses `#rrggbb` first, and falls back to the named-color table.
    pub fn from_named_or_rgb_string(s: &str) -> (r: Option<RgbColor>)
        ensures
            r == (match spec_parse_rgb(s@) {
                Some(c) => Some(c),
                None => spec_from_named(s@),
            }),
    {
        match Self::from_rgb_str(s) {
            Some(c) => Some(c),
            None => Self::from_named(s),
        }
    }
}

/// A pixel color packed into one 32-bit word.
#[derive(Debug, Clone, Copy, Eq, PartialEq, Structural)]
pub struct Color(pub u32);

/// How the four channels are packed into the word.
pub open spec fn spec_pack_rgba(red: u8, green: u8, blue: u8, alpha: u8) -> u32 {
    (((blue as u32) << 24) | ((green as u32) << 16) | ((red as u32) << 8) | (alpha as u32)) as u32
}

/// The four channels of a packed word, in `(red, green, blue, alpha)` order.
pub open spec fn spec_unpack_rgba(w: u32) -> (u8, u8, u8, u8) {
    (((w >> 8) & 0xff) as u8, ((w >> 16) & 0xff) as u8, ((w >> 24) & 0xff) as u8, (w & 0xff) as u8)
}

impl Color {
    pub fn rgb(red: u8, green: u8, blue: u8) -> (r: Color)
        ensures
            r.0 == spec_pack_rgba(red, green, blue, 0xff),
    {
        Color::rgba(red, green, blue, 0xff)
    }

    pub fn rgba(red: u8, green: u8, blue: u8, alpha: u8) -> (r: Color)
        ensures
            r.0 == spec_pack_rgba(red, green, blue, alpha),
    {
        let word = ((blue as u32) << 24) | ((green as u32) << 16) | ((red as u32) << 8) | (
        alpha as u32);
        Color(word)
    }

    pub fn as_rgba(self) -> (r: (u8, u8, u8, u8))
        ensures
            r == spec_unpack_rgba(self.0),
    {
        let w = self.0;
        proof {
            assert((w >> 8) & 0xff < 256 && (w >> 16) & 0xff < 256 && (w >> 24) & 0xff < 256 && w
                & 0xff < 256) by (bit_vector);
        }
        (((w >> 8) & 0xff) as u8, ((w >> 16) & 0xff) as u8, ((w >> 24) & 0xff) as u8, (w
            & 0xff) as u8)
    }
}

} // verus!
