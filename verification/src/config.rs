//! Text styles: which font families, with which weights and slants, a run
//! of text asks for, and the rules that match a style against a font's
//! name-table entries. Styles are plain values that compare by content, so
//! they can key caches.

use crate::color::RgbColor;
use crate::strutil::str_eq;
use vstd::prelude::*;

verus! {

/// The ghost value of [`FontAttributes`].
#[verifier::ext_equal]
pub struct FontAttributesView {
    pub family: Seq<char>,
    pub bold: bool,
    pub italic: bool,
}

/// One requested font: a family name plus weight and slant flags.
#[derive(Debug, Clone)]
pub struct FontAttributes {
    pub family: String,
    pub bold: bool,
    pub italic: bool,
}

impl View for FontAttributes {
    type V = FontAttributesView;

    open spec fn view(&self) -> FontAttributesView {
        FontAttributesView { family: self.family@, bold: self.bold, italic: self.italic }
    }
}

impl DeepView for FontAttributes {
    type V = FontAttributesView;

    open spec fn deep_view(&self) -> FontAttributesView {
        self@
    }
}

/// The default font request: the platform's monospace family, regular.
pub open spec fn spec_default_font_attributes() -> FontAttributesView {
    FontAttributesView { family: "monospace"@, bold: false, italic: false }
}

impl FontAttributes {
    /// An attribute set by parts.
    pub fn new(family: String, bold: bool, italic: bool) -> (r: FontAttributes)
        ensures
            r@ == (FontAttributesView { family: family@, bold, italic }),
    {
        FontAttributes { family, bold, italic }
    }

    /// An equal, independent copy.
    pub fn duplicate(&self) -> (r: FontAttributes)
        ensures
            r@ == self@,
    {
        FontAttributes { family: self.family.clone(), bold: self.bold, italic: self.italic }
    }

    /// Content equality.
    pub fn eq_attrs(&self, other: &FontAttributes) -> (r: bool)
        ensures
            r == (self@ == other@),
    {
        str_eq(self.family.as_str(), other.family.as_str()) && self.bold == other.bold
            && self.italic == other.italic
    }
}

impl Default for FontAttributes {
    fn default() -> (r: Self)
        ensures
            r@ == spec_default_font_attributes(),
    {
        FontAttributes { family: String::from_str("monospace"), bold: false, italic: false }
    }
}

/// The ghost value of [`TextStyle`].
#[verifier::ext_equal]
pub struct TextStyleView {
    pub font: Seq<FontAttributesView>,
    pub foreground: Option<RgbColor>,
}

/// A text style: the ordered font requests (first choice first) and an
/// optional foreground color.
#[derive(Debug, Clone)]
pub struct TextStyle {
    pub font: Vec<FontAttributes>,
    pub foreground: Option<RgbColor>,
}

impl View for TextStyle {
    type V = TextStyleView;

    open spec fn view(&self) -> TextStyleView {
        TextStyleView { font: self.font.deep_view(), foreground: self.foreground }
    }
}

impl DeepView for TextStyle {
    type V = TextStyleView;

    open spec fn deep_view(&self) -> TextStyleView {
        self@
    }
}

/// The fallback list a style resolves through: the style's own requests
/// (or the default when it names none) followed by the platform emoji font.
pub open spec fn spec_font_with_fallback(s: TextStyleView) -> Seq<FontAttributesView> {
    let base = if s.font.len() == 0 {
        seq![spec_default_font_attributes()]
    } else {
        s.font
    };
    base.push(FontAttributesView { family: "Noto Color Emoji"@, bold: false, italic: false })
}

impl Default for TextStyle {
    fn default() -> (r: Self)
        ensures
            r@ == (TextStyleView {
                font: seq![spec_default_font_attributes()],
                foreground: None::<RgbColor>,
            }),
    {
        let mut font: Vec<FontAttributes> = Vec::new();
        font.push(FontAttributes::default());
        let r = TextStyle { font, foreground: None };
        proof {
            assert(r@.font =~~= seq![spec_default_font_attributes()]);
            assert(r@ =~~= (TextStyleView {
                font: seq![spec_default_font_attributes()],
                foreground: None::<RgbColor>,
            }));
        }
        r
    }
}

impl TextStyle {
    /// An equal, independent copy.
    pub fn duplicate(&self) -> (r: TextStyle)
        ensures
            r@ == self@,
    {
        let n = self.font.len();
        let mut font: Vec<FontAttributes> = Vec::new();
        let mut i: usize = 0;
        while i < n
            invariant
                i <= n,
                n == self@.font.len(),
                self@.font == self.font.deep_view(),
                font.deep_view() == self@.font.take(i as int),
            decreases n - i,
        {
            let ghost prevd = font.deep_view();
            let dup = self.font[i].duplicate();
            let ghost dv = dup@;
            font.push(dup);
            proof {
                assert(self.font.deep_view()[i as int] == self.font@[i as int].deep_view());
                assert(font.deep_view() =~= prevd.push(dv));
                assert(font.deep_view() =~= self@.font.take(i + 1));
            }
            i = i + 1;
        }
        proof {
            assert(self@.font.take(n as int) =~= self@.font);
        }
        let r = TextStyle { font, foreground: self.foreground };
        proof {
            assert(r@ =~~= self@);
        }
        r
    }

    /// Content equality.
    pub fn eq_style(&self, other: &TextStyle) -> (r: bool)
        ensures
            r == (self@ == other@),
    {
        if self.font.len() != other.font.len() {
            proof {
                assert(self@.font.len() != other@.font.len());
            }
            return false;
        }
        let n = self.font.len();
        let mut i: usize = 0;
        while i < n
            invariant
                i <= n,
                n == self@.font.len(),
                n == other@.font.len(),
                self@.font == self.font.deep_view(),
                other@.font == other.font.deep_view(),
                forall|j: int| 0 <= j < i ==> self@.font[j] == other@.font[j],
            decreases n - i,
        {
            if !self.font[i].eq_attrs(&other.font[i]) {
                proof {
                    assert(self.font.deep_view()[i as int] == self.font@[i as int].deep_view());
                    assert(other.font.deep_view()[i as int] == other.font@[i as int].deep_view());
                    assert(self@.font[i as int] != other@.font[i as int]);
                }
                return false;
            }
            i = i + 1;
        }
        proof {
            assert(self@.font =~= other@.font);
        }
        match (&self.foreground, &other.foreground) {
            (Some(a), Some(b)) => *a == *b,
            (None, None) => true,
            _ => false,
        }
    }

    /// The same style with every font request made bold.
    pub fn make_bold(&self) -> (r: Self)
        ensures
            r@.foreground == self@.foreground,
            r@.font.len() == self@.font.len(),
            forall|i: int|
                0 <= i < self@.font.len() ==> r@.font[i] == (FontAttributesView {
                    family: (#[trigger] self@.font[i]).family,
                    bold: true,
                    italic: self@.font[i].italic,
                }),
    {
        let n = self.font.len();
        let mut font: Vec<FontAttributes> = Vec::new();
        let mut i: usize = 0;
        while i < n
            invariant
                i <= n,
                n == self@.font.len(),
                self@.font == self.font.deep_view(),
                font.deep_view().len() == i,
                forall|j: int|
                    0 <= j < i ==> font.deep_view()[j] == (FontAttributesView {
                        family: (#[trigger] self@.font[j]).family,
                        bold: true,
                        italic: self@.font[j].italic,
                    }),
            decreases n - i,
        {
            let a = &self.font[i];
            font.push(FontAttributes { family: a.family.clone(), bold: true, italic: a.italic });
            i = i + 1;
        }
        TextStyle { font, foreground: self.foreground }
    }

    /// The same style with every font request made italic.
    pub fn make_italic(&self) -> (r: Self)
        ensures
            r@.foreground == self@.foreground,
            r@.font.len() == self@.font.len(),
            forall|i: int|
                0 <= i < self@.font.len() ==> r@.font[i] == (FontAttributesView {
                    family: (#[trigger] self@.font[i]).family,
                    bold: self@.font[i].bold,
                    italic: true,
                }),
    {
        let n = self.font.len();
        let mut font: Vec<FontAttributes> = Vec::new();
        let mut i: usize = 0;
        while i < n
            invariant
                i <= n,
                n == self@.font.len(),
                self@.font == self.font.deep_view(),
                font.deep_view().len() == i,
                forall|j: int|
                    0 <= j < i ==> font.deep_view()[j] == (FontAttributesView {
                        family: (#[trigger] self@.font[j]).family,
                        bold: self@.font[j].bold,
                        italic: true,
                    }),
            decreases n - i,
        {
            let a = &self.font[i];
            font.push(FontAttributes { family: a.family.clone(), bold: a.bold, italic: true });
            i = i + 1;
        }
        TextStyle { font, foreground: self.foreground }
    }

    /// The ordered fallback list for this style: its own font requests (or
    /// the default) plus the platform emoji font.
    pub fn font_with_fallback(&self) -> (r: Vec<FontAttributes>)
        ensures
            r.deep_view() == spec_font_with_fallback(self@),
    {
        let n = self.font.len();
        let mut font: Vec<FontAttributes> = Vec::new();
        let mut i: usize = 0;
        while i < n
            invariant
                i <= n,
                n == self@.font.len(),
                self@.font == self.font.deep_view(),
                font.deep_view() == self@.font.take(i as int),
            decreases n - i,
        {
            let ghost prevd = font.deep_view();
            let dup = self.font[i].duplicate();
            let ghost dv = dup@;
            font.push(dup);
            proof {
                assert(self.font.deep_view()[i as int] == self.font@[i as int].deep_view());
                assert(dv == self@.font[i as int]);
                assert(font.deep_view() =~= prevd.push(dv));
                assert(prevd.push(dv) =~= self@.font.take(i + 1));
            }
            i = i + 1;
        }
        proof {
            assert(self@.font.take(n as int) =~= self@.font);
        }
        if font.len() == 0 {
            font.push(FontAttributes::default());
        }
        font.push(
            FontAttributes {
                family: String::from_str("Noto Color Emoji"),
                bold: false,
                italic: false,
            },
        );
        proof {
            assert(font.deep_view() =~~= spec_font_with_fallback(self@));
        }
        font
    }
}

/// A font file held in memory: its source name, its bytes, and which face
/// of a collection to use.
#[derive(Debug, Clone)]
pub struct FontDataHandle {
    pub name: String,
    pub data: Vec<u8>,
    pub index: u32,
}

/// The ghost value of [`Names`].
#[verifier::ext_equal]
pub struct NamesView {
    pub full_name: Seq<char>,
    pub unique: Option<Seq<char>>,
    pub family: Option<Seq<char>>,
    pub sub_family: Option<Seq<char>>,
    pub postscript_name: Option<Seq<char>>,
}

/// The entries a font's name table carries, as plain strings; a backend
/// reads them out of the font file.
#[derive(Debug, Clone)]
pub struct Names {
    pub full_name: String,
    pub unique: Option<String>,
    pub family: Option<String>,
    pub sub_family: Option<String>,
    pub postscript_name: Option<String>,
}

/// The ghost value of an optional string.
pub open spec fn spec_opt_str(s: Option<String>) -> Option<Seq<char>> {
    match s {
        Some(x) => Some(x@),
        None => None,
    }
}

impl View for Names {
    type V = NamesView;

    open spec fn view(&self) -> NamesView {
        NamesView {
            full_name: self.full_name@,
            unique: spec_opt_str(self.unique),
            family: spec_opt_str(self.family),
            sub_family: spec_opt_str(self.sub_family),
            postscript_name: spec_opt_str(self.postscript_name),
        }
    }
}

/// Whether a font with the given name-table entries satisfies a request:
/// either its family matches and its sub-family agrees with the requested
/// weight and slant, or its full name is requested verbatim in regular
/// weight.
pub open spec fn spec_font_info_matches(attr: FontAttributesView, names: NamesView) -> bool {
    (match names.family {
        Some(fam) => attr.family == fam && (match names.sub_family {
            Some(sf) => (sf == "Italic"@ && attr.italic && !attr.bold) || (sf == "Bold"@
                && attr.bold && !attr.italic) || (sf == "Bold Italic"@ && attr.bold && attr.italic)
                || ((sf == "Medium"@ || sf == "Regular"@) && !attr.italic && !attr.bold),
            None => !attr.italic && !attr.bold,
        }),
        None => false,
    }) || (attr.family == names.full_name && !attr.bold && !attr.italic)
}

/// Does this font's name table satisfy the request?
pub fn font_info_matches(attr: &FontAttributes, names: &Names) -> (r: bool)
    ensures
        r == spec_font_info_matches(attr@, names@),
{
    let family_match = match &names.family {
        Some(fam) => {
            if str_eq(attr.family.as_str(), fam.as_str()) {
                match &names.sub_family {
                    Some(sf) => {
                        (str_eq(sf.as_str(), "Italic") && attr.italic && !attr.bold) || (str_eq(
                            sf.as_str(),
                            "Bold",
                        ) && attr.bold && !attr.italic) || (str_eq(sf.as_str(), "Bold Italic")
                            && attr.bold && attr.italic) || ((str_eq(sf.as_str(), "Medium")
                            || str_eq(sf.as_str(), "Regular")) && !attr.italic && !attr.bold)
                    },
                    None => !attr.italic && !attr.bold,
                }
            } else {
                false
            }
        },
        None => false,
    };
    if family_match {
        true
    } else {
        str_eq(attr.family.as_str(), names.full_name.as_str()) && !attr.bold && !attr.italic
    }
}

} // verus!
