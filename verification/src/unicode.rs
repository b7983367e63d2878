//! Trusted views of the Unicode tables this library leans on: grapheme
//! segmentation, display width, and the emoji-modifier classes.
//!
//! The results are functions of the text alone, so each exec wrapper pins its
//! result to an uninterpreted name that contracts elsewhere can speak of.

use unicode_segmentation::UnicodeSegmentation;
use unicode_width::UnicodeWidthStr;
use vstd::prelude::*;
use xi_unicode::EmojiExt;

verus! {

/// The extended grapheme clusters of a string, in order; concatenated they
/// give the string back, and none of them is empty.
pub uninterp spec fn graphemes_of(s: Seq<char>) -> Seq<Seq<char>>;

/// Relies on unicode_segmentation's `UnicodeSegmentation::graphemes` (in
/// extended mode): splits a string into its grapheme clusters, which
/// concatenate back to the input and are never empty.
#[verifier::external_body]
pub fn split_graphemes(s: &str) -> (r: Vec<String>)
    ensures
        r.deep_view() == graphemes_of(s@),
        r.deep_view().flatten() == s@,
        forall|i: int| 0 <= i < r.deep_view().len() ==> #[trigger] r.deep_view()[i].len() > 0,
{
    s.graphemes(true).map(|g| g.to_string()).collect()
}

/// The Unicode display width of a string, taking East-Asian width into
/// account.
pub uninterp spec fn str_display_width_of(s: Seq<char>) -> nat;

/// Relies on unicode_width's `UnicodeWidthStr::width`: the display width of
/// the string in terminal columns.
#[verifier::external_body]
pub fn str_display_width(s: &str) -> (r: usize)
    ensures
        r as nat == str_display_width_of(s@),
{
    UnicodeWidthStr::width(s)
}

/// Whether the character is an emoji modifier (a skin-tone selector).
pub uninterp spec fn is_emoji_modifier_of(c: char) -> bool;

/// Relies on xi_unicode's `EmojiExt::is_emoji_modifier`.
#[verifier::external_body]
pub fn is_emoji_modifier(c: char) -> (r: bool)
    ensures
        r == is_emoji_modifier_of(c),
{
    c.is_emoji_modifier()
}

/// Whether the character can carry an emoji modifier.
pub uninterp spec fn is_emoji_modifier_base_of(c: char) -> bool;

/// Relies on xi_unicode's `EmojiExt::is_emoji_modifier_base`.
#[verifier::external_body]
pub fn is_emoji_modifier_base(c: char) -> (r: bool)
    ensures
        r == is_emoji_modifier_base_of(c),
{
    c.is_emoji_modifier_base()
}

} // verus!
