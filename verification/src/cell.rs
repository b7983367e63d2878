//! One terminal grid position: a grapheme's text plus its display
//! attributes. Control characters are normalized to a single space when a
//! cell is built, and a cell's display width is derived from its text.

use crate::color::RgbColor;
use crate::strutil::string_push;
use crate::unicode::{
    is_emoji_modifier, is_emoji_modifier_base, is_emoji_modifier_base_of, is_emoji_modifier_of,
    str_display_width, str_display_width_of,
};
use vstd::prelude::*;

verus! {

/// How brightly a cell is drawn.
#[derive(Debug, Clone, Copy, PartialEq, Eq, Structural, Default)]
pub enum Intensity {
    #[default]
    Normal,
    Bold,
    Half,
}

impl Intensity {
    /// Whether this intensity asks for a bold font.
    pub fn into_bool(self) -> (r: bool)
        ensures
            r == (self is Bold),
    {
        match self {
            Intensity::Bold => true,
            _ => false,
        }
    }
}

/// The cell's underline style.
#[derive(Debug, Clone, Copy, PartialEq, Eq, Structural, Default)]
pub enum Underline {
    #[default]
    Off,
    Single,
    Double,
}

impl Underline {
    /// Whether any underline is drawn.
    pub fn into_bool(self) -> (r: bool)
        ensures
            r == !(self is Off),
    {
        match self {
            Underline::Off => false,
            _ => true,
        }
    }
}

/// The cell's blink rate.
#[derive(Debug, Clone, Copy, PartialEq, Eq, Structural, Default)]
pub enum Blink {
    #[default]
    Off,
    Slow,
    Rapid,
}

impl Blink {
    /// Whether the cell blinks at all.
    pub fn into_bool(self) -> (r: bool)
        ensures
            r == !(self is Off),
    {
        match self {
            Blink::Off => false,
            _ => true,
        }
    }
}

/// The display attributes of one cell. Cells with equal attributes are
/// shaped together as one cluster.
#[derive(Debug, Clone, Copy, PartialEq, Eq, Structural)]
pub struct CellAttributes {
    pub intensity: Intensity,
    pub underline: Underline,
    pub blink: Blink,
    pub italic: bool,
    pub reverse: bool,
    pub strikethrough: bool,
    pub invisible: bool,
    pub foreground: RgbColor,
    pub background: RgbColor,
}

impl Default for CellAttributes {
    fn default() -> (r: Self)
        ensures
            r == (CellAttributes {
                intensity: Intensity::Normal,
                underline: Underline::Off,
                blink: Blink::Off,
                italic: false,
                reverse: false,
                strikethrough: false,
                invisible: false,
                foreground: RgbColor { red: 255, green: 255, blue: 255 },
                background: RgbColor { red: 0, green: 0, blue: 0 },
            }),
    {
        CellAttributes {
            intensity: Intensity::Normal,
            underline: Underline::Off,
            blink: Blink::Off,
            italic: false,
            reverse: false,
            strikethrough: false,
            invisible: false,
            foreground: RgbColor { red: 255, green: 255, blue: 255 },
            background: RgbColor { red: 0, green: 0, blue: 0 },
        }
    }
}

/// A Unicode control character (the C0 and C1 ranges plus delete).
pub open spec fn spec_is_control(c: char) -> bool {
    (c as u32) < 32 || (127 <= (c as u32) && (c as u32) < 160)
}

/// What a cell stores for a grapheme: the text itself, or a single space
/// when the grapheme holds any control character (this also collapses a
/// bare carriage-return/line-feed pair to one space).
pub open spec fn spec_normalize(g: Seq<char>) -> Seq<char> {
    if exists|i: int| 0 <= i < g.len() && spec_is_control(#[trigger] g[i]) {
        seq![' ']
    } else {
        g
    }
}

/// The display width of a grapheme: two when it involves an emoji modifier,
/// else its Unicode East-Asian-aware width.
pub open spec fn spec_grapheme_width(s: Seq<char>) -> nat {
    if exists|i: int|
        0 <= i < s.len() && (is_emoji_modifier_base_of(#[trigger] s[i]) || is_emoji_modifier_of(
            s[i],
        )) {
        2
    } else {
        str_display_width_of(s)
    }
}

/// The display width of a grapheme in terminal columns.
pub fn grapheme_column_width(s: &str) -> (r: usize)
    ensures
        r as nat == spec_grapheme_width(s@),
{
    let n: usize = s.unicode_len();
    let mut i: usize = 0;
    while i < n
        invariant
            i <= n,
            n == s@.len(),
            forall|j: int|
                0 <= j < i ==> !(is_emoji_modifier_base_of(#[trigger] s@[j]) || is_emoji_modifier_of(
                    s@[j],
                )),
        decreases n - i,
    {
        let c = s.get_char(i);
        if is_emoji_modifier_base(c) || is_emoji_modifier(c) {
            return 2;
        }
        i = i + 1;
    }
    str_display_width(s)
}

/// The ghost value of a cell: its (normalized) text and its attributes.
#[verifier::ext_equal]
pub struct CellView {
    pub text: Seq<char>,
    pub attrs: CellAttributes,
}

/// One grid position.
#[derive(Debug, Clone)]
pub struct Cell {
    text: String,
    attrs: CellAttributes,
}

impl View for Cell {
    type V = CellView;

    closed spec fn view(&self) -> CellView {
        CellView { text: self.text@, attrs: self.attrs }
    }
}

impl DeepView for Cell {
    type V = CellView;

    open spec fn deep_view(&self) -> CellView {
        self@
    }
}

impl Cell {
    /// A cell holding one character, normalized.
    pub fn new(text: char, attrs: CellAttributes) -> (r: Self)
        ensures
            r@.text == spec_normalize(seq![text]),
            r@.attrs == attrs,
    {
        let mut s = String::new();
        let cu = text as u32;
        if cu < 32 || (127 <= cu && cu < 160) {
            string_push(&mut s, ' ');
            proof {
                assert(spec_is_control(seq![text][0]));
                assert(s@ =~= spec_normalize(seq![text]));
            }
        } else {
            string_push(&mut s, text);
            proof {
                assert(forall|i: int|
                    0 <= i < seq![text].len() ==> !spec_is_control(#[trigger] seq![text][i]));
                assert(s@ =~= spec_normalize(seq![text]));
            }
        }
        Cell { text: s, attrs }
    }

    /// A cell holding one grapheme's text, normalized.
    pub fn new_grapheme(text: &str, attrs: CellAttributes) -> (r: Self)
        ensures
            r@.text == spec_normalize(text@),
            r@.attrs == attrs,
    {
        let n: usize = text.unicode_len();
        let mut i: usize = 0;
        while i < n
            invariant
                i <= n,
                n == text@.len(),
                forall|j: int| 0 <= j < i ==> !spec_is_control(#[trigger] text@[j]),
            decreases n - i,
        {
            let c = text.get_char(i);
            let cu = c as u32;
            if cu < 32 || (127 <= cu && cu < 160) {
                let mut s = String::new();
                string_push(&mut s, ' ');
                proof {
                    assert(spec_is_control(text@[i as int]));
                    assert(s@ =~= spec_normalize(text@));
                }
                return Cell { text: s, attrs };
            }
            i = i + 1;
        }
        let s = text.to_owned();
        Cell { text: s, attrs }
    }

    /// The cell's text.
    pub fn str(&self) -> (r: &str)
        ensures
            r@ == self@.text,
    {
        self.text.as_str()
    }

    /// The cell's attributes.
    pub fn attrs(&self) -> (r: &CellAttributes)
        ensures
            *r == self@.attrs,
    {
        &self.attrs
    }

    /// The cell's display width, derived from its text.
    pub fn width(&self) -> (r: usize)
        ensures
            r as nat == spec_grapheme_width(self@.text),
    {
        grapheme_column_width(self.text.as_str())
    }
}

} // verus!
