//! The fallback resolver: shapes one cluster's text against an ordered font
//! chain. Each font resolves what it can; unresolved spans recurse into the
//! next font. When the chain is exhausted the text is replaced by `?`
//! placeholders and retried once from the first font; if even that fails,
//! the call reports that no usable fallback exists.

use crate::cellcluster::spec_byte_len;
use crate::shaper::{
    spec_wf_items, GlyphInfo, MaybeShaped, MaybeShapedView,
    ShapeFont, ShaperError,
};
use crate::strutil::string_push;
use vstd::prelude::*;
use vstd::utf8::{encode_scalar, encode_utf8};

verus! {

/// The text consists only of placeholder question marks (an empty text
/// counts).
pub open spec fn spec_all_placeholders(text: Seq<char>) -> bool {
    forall|i: int| 0 <= i < text.len() ==> text[i] == '?'
}

/// Zero once the text is all placeholders: the placeholder retry cannot
/// recurse further.
pub open spec fn spec_placeholder_flag(text: Seq<char>) -> int {
    if spec_all_placeholders(text) {
        0
    } else {
        1
    }
}

/// The substitute text the retry shapes: one `?` per character.
pub open spec fn spec_placeholder_text(text: Seq<char>) -> Seq<char> {
    Seq::new(text.len(), |i: int| '?')
}

/// A text encodes to at least one byte per character.
pub proof fn lemma_byte_len_lower(text: Seq<char>)
    ensures
        text.len() <= spec_byte_len(text),
    decreases text.len(),
{
    if text.len() > 0 {
        lemma_byte_len_lower(text.drop_first());
    }
}

/// Placeholder text is all ASCII: one byte per character.
pub proof fn lemma_placeholder_byte_len(text: Seq<char>)
    ensures
        spec_byte_len(spec_placeholder_text(text)) == text.len(),
    decreases text.len(),
{
    let p = spec_placeholder_text(text);
    if text.len() == 0 {
        assert(encode_utf8(p) =~= Seq::<u8>::empty());
    } else {
        lemma_placeholder_byte_len(text.drop_first());
        assert(p.drop_first() =~= spec_placeholder_text(text.drop_first()));
        assert(encode_scalar(p[0] as u32).len() == 1);
    }
}

/// A well-behaved font: every successful shaping of an in-range input is a
/// well-formed run sequence.
pub open spec fn spec_font_wf<F: ShapeFont>(f: F) -> bool {
    forall|text: Seq<char>, slice: int|
        0 <= slice && slice + spec_byte_len(text) <= usize::MAX ==> match #[trigger] f.shape_result(
            text,
            slice,
        ) {
            Some(items) => spec_wf_items(text, slice, items),
            None => true,
        }
}

/// Every present font of the chain is well behaved.
pub open spec fn spec_fonts_wf<F: ShapeFont>(fonts: Seq<Option<F>>) -> bool {
    forall|j: int|
        0 <= j < fonts.len() ==> match #[trigger] fonts[j] {
            Some(f) => spec_font_wf(f),
            None => true,
        }
}

/// `g` tagged with the fallback index that produced it.
pub open spec fn spec_with_font_idx(g: GlyphInfo, font_idx: int) -> GlyphInfo {
    GlyphInfo {
        font_idx: font_idx as usize,
        glyph_pos: g.glyph_pos,
        cluster: g.cluster,
        num_cells: g.num_cells,
        x_advance: g.x_advance,
        y_advance: g.y_advance,
        x_offset: g.x_offset,
        y_offset: g.y_offset,
    }
}

/// What resolving `text` from fallback `font_index` on yields: the exact
/// glyph sequence, or the first error met. Exhausting the chain substitutes
/// placeholders and retries once from the first font; all-placeholder text
/// that exhausts the chain is the terminal failure.
pub open spec fn spec_shape_into<F: ShapeFont>(
    fonts: Seq<Option<F>>,
    font_index: int,
    text: Seq<char>,
    slice_index: int,
) -> Result<Seq<GlyphInfo>, ShaperError>
    decreases spec_placeholder_flag(text), 2 * (fonts.len() - font_index) + 1, 0int,
    when 0 <= font_index <= fonts.len() && 0 <= slice_index && slice_index + spec_byte_len(text)
        <= usize::MAX && spec_fonts_wf(fonts)
    via spec_shape_into_dec::<F>
{
    if font_index >= fonts.len() {
        if spec_all_placeholders(text) {
            Err(ShaperError::NoUsableFallback)
        } else {
            spec_shape_into(fonts, 0, spec_placeholder_text(text), slice_index)
        }
    } else {
        match fonts[font_index] {
            None => spec_shape_into(fonts, font_index + 1, text, slice_index),
            Some(font) => match font.shape_result(text, slice_index) {
                None => Err(ShaperError::Backend),
                Some(items) => spec_shape_items(fonts, font_index, text, slice_index, items, 0),
            },
        }
    }
}

/// Folds a backend's runs from `k` on: resolved glyphs are tagged with the
/// font index; unresolved runs recurse into the next fallback; the first
/// error wins.
pub open spec fn spec_shape_items<F: ShapeFont>(
    fonts: Seq<Option<F>>,
    font_index: int,
    text: Seq<char>,
    slice_index: int,
    items: Seq<MaybeShapedView>,
    k: int,
) -> Result<Seq<GlyphInfo>, ShaperError>
    decreases spec_placeholder_flag(text), 2 * (fonts.len() - font_index), items.len() - k,
    when 0 <= font_index < fonts.len() && 0 <= k && 0 <= slice_index && slice_index
        + spec_byte_len(text) <= usize::MAX && spec_fonts_wf(fonts) && spec_wf_items(
        text,
        slice_index,
        items,
    )
    via spec_shape_items_dec::<F>
{
    if k >= items.len() {
        Ok(Seq::empty())
    } else {
        let head = match items[k] {
            MaybeShapedView::Resolved(g) => Ok(seq![spec_with_font_idx(g, font_index)]),
            MaybeShapedView::Unresolved { raw, slice_start } => spec_shape_into(
                fonts,
                font_index + 1,
                raw,
                slice_start,
            ),
        };
        let tail = spec_shape_items(fonts, font_index, text, slice_index, items, k + 1);
        match (head, tail) {
            (Err(e), _) => Err(e),
            (Ok(h), Err(e)) => Err(e),
            (Ok(h), Ok(t)) => Ok(h + t),
        }
    }
}

#[via_fn]
proof fn spec_shape_into_dec<F: ShapeFont>(
    fonts: Seq<Option<F>>,
    font_index: int,
    text: Seq<char>,
    slice_index: int,
) {
    if font_index >= fonts.len() {
        if !spec_all_placeholders(text) {
            lemma_placeholder_byte_len(text);
            lemma_byte_len_lower(text);
        }
    } else {
        match fonts[font_index] {
            Some(font) => {
                assert(spec_font_wf(font));
                match font.shape_result(text, slice_index) {
                    Some(items) => {
                        assert(spec_wf_items(text, slice_index, items));
                    },
                    None => {},
                }
            },
            None => {},
        }
    }
}

#[via_fn]
proof fn spec_shape_items_dec<F: ShapeFont>(
    fonts: Seq<Option<F>>,
    font_index: int,
    text: Seq<char>,
    slice_index: int,
    items: Seq<MaybeShapedView>,
    k: int,
) {
    if 0 <= k < items.len() {
        match items[k] {
            MaybeShapedView::Unresolved { raw, slice_start } => {
                assert(crate::shaper::spec_unresolved_ok(text, slice_index, items[k]));
                let (a, b) = choose|a: int, b: int|
                    crate::shaper::spec_is_span(text, slice_index, raw, slice_start, a, b);
                if spec_all_placeholders(text) {
                    assert forall|i: int| 0 <= i < raw.len() implies raw[i] == '?' by {
                        assert(raw[i] == text[a + i]);
                    }
                }
                assert(spec_placeholder_flag(raw) <= spec_placeholder_flag(text));
            },
            MaybeShapedView::Resolved(g) => {},
        }
    }
}


/// The fallback resolver: an ordered chain of fonts for one text style.
/// A `None` entry is a font that failed to load when the chain was built;
/// it is skipped, never retried.
pub struct FallbackShaper<F: ShapeFont> {
    fonts: Vec<Option<F>>,
}

impl<F: ShapeFont> FallbackShaper<F> {
    /// The font chain, first choice first.
    pub closed spec fn spec_fonts(&self) -> Seq<Option<F>> {
        self.fonts@
    }

    /// Every font of the chain is well behaved (established once at
    /// construction from the trait's law).
    pub open spec fn wf(&self) -> bool {
        spec_fonts_wf(self.spec_fonts())
    }

    /// What resolving a text against this chain yields.
    pub open spec fn spec_shape(&self, text: Seq<char>) -> Result<Seq<GlyphInfo>, ShaperError> {
        spec_shape_into(self.spec_fonts(), 0, text, 0)
    }

    /// A resolver over the given chain; `None` marks a font whose load
    /// failed.
    pub fn new(fonts: Vec<Option<F>>) -> (r: Self)
        ensures
            r.wf(),
            r.spec_fonts() == fonts@,
    {
        proof {
            assert forall|j: int| 0 <= j < fonts@.len() implies match #[trigger] fonts@[j] {
                Some(f) => spec_font_wf(f),
                None => true,
            } by {
                match fonts@[j] {
                    Some(f) => {
                        assert forall|text: Seq<char>, slice: int|
                            0 <= slice && slice + spec_byte_len(text)
                                <= usize::MAX implies match #[trigger] f.shape_result(
                            text,
                            slice,
                        ) {
                            Some(items) => spec_wf_items(text, slice, items),
                            None => true,
                        } by {
                            f.shape_result_wf(text, slice);
                        }
                    },
                    None => {},
                }
            }
        }
        FallbackShaper { fonts }
    }

    /// How many fonts the chain holds.
    pub fn font_count(&self) -> (r: usize)
        ensures
            r == self.spec_fonts().len(),
    {
        self.fonts.len()
    }

    /// Resolves the runs of `s` from fallback `font_index` on, appending
    /// the glyphs to `results` in text order.
    fn shape_into(
        &self,
        font_index: usize,
        s: &str,
        slice_index: usize,
        results: &mut Vec<GlyphInfo>,
    ) -> (r: Result<(), ShaperError>)
        requires
            self.wf(),
            font_index <= self.spec_fonts().len(),
            slice_index + spec_byte_len(s@) <= usize::MAX,
        ensures
            old(results)@.is_prefix_of(final(results)@),
            match r {
                Ok(u) => spec_shape_into(
                    self.spec_fonts(),
                    font_index as int,
                    s@,
                    slice_index as int,
                ) == Ok::<Seq<GlyphInfo>, ShaperError>(
                    final(results)@.skip(old(results)@.len() as int),
                ),
                Err(e) => spec_shape_into(
                    self.spec_fonts(),
                    font_index as int,
                    s@,
                    slice_index as int,
                ) == Err::<Seq<GlyphInfo>, ShaperError>(e),
            },
        decreases spec_placeholder_flag(s@), 2 * (self.spec_fonts().len() - font_index) + 1,
    {
        let ghost fonts_v = self.spec_fonts();
        let ghost base = results@;
        let nfonts = self.fonts.len();
        if font_index >= nfonts {
            // The chain is exhausted: substitute placeholders and retry
            // from the first font, unless this already is placeholder text.
            let n: usize = s.unicode_len();
            let mut all_q = true;
            let mut i: usize = 0;
            while i < n
                invariant
                    i <= n,
                    n == s@.len(),
                    all_q <==> (forall|j: int| 0 <= j < i ==> s@[j] == '?'),
                decreases n - i,
            {
                if s.get_char(i) != '?' {
                    all_q = false;
                }
                i = i + 1;
            }
            if all_q {
                proof {
                    assert(spec_all_placeholders(s@));
                    assert(results@.skip(base.len() as int) =~= Seq::<GlyphInfo>::empty());
                }
                return Err(ShaperError::NoUsableFallback);
            }
            proof {
                assert(!spec_all_placeholders(s@));
                lemma_placeholder_byte_len(s@);
                lemma_byte_len_lower(s@);
            }
            let mut alt = String::new();
            let mut i: usize = 0;
            while i < n
                invariant
                    i <= n,
                    alt@ == Seq::new(i as nat, |j: int| '?'),
                decreases n - i,
            {
                string_push(&mut alt, '?');
                proof {
                    assert(alt@ =~= Seq::new((i + 1) as nat, |j: int| '?'));
                }
                i = i + 1;
            }
            proof {
                assert(alt@ =~= spec_placeholder_text(s@));
                assert(spec_placeholder_flag(alt@) == 0);
            }
            return self.shape_into(0, alt.as_str(), slice_index, results);
        }
        match &self.fonts[font_index] {
            None => self.shape_into(font_index + 1, s, slice_index, results),
            Some(font) => {
                proof {
                    assert(fonts_v[font_index as int] matches Some(f) && spec_font_wf(f));
                }
                match font.shape_text(s, slice_index) {
                    Err(_) => {
                        proof {
                            assert(results@.skip(base.len() as int)
                                =~= Seq::<GlyphInfo>::empty());
                        }
                        Err(ShaperError::Backend)
                    },
                    Ok(items) => {
                        proof {
                            assert(spec_wf_items(s@, slice_index as int, items.deep_view()));
                        }
                        let r = self.shape_runs(font_index, s, slice_index, &items, results);
                        proof {
                            assert(spec_shape_into(
                                fonts_v,
                                font_index as int,
                                s@,
                                slice_index as int,
                            ) == spec_shape_items(
                                fonts_v,
                                font_index as int,
                                s@,
                                slice_index as int,
                                items.deep_view(),
                                0,
                            ));
                        }
                        r
                    },
                }
            },
        }
    }

    /// Folds one backend's runs: resolved glyphs are appended tagged with
    /// this font's index; unresolved spans recurse into the next fallback.
    #[verifier::rlimit(100)]
    #[verifier::spinoff_prover]
    fn shape_runs(
        &self,
        font_index: usize,
        s: &str,
        slice_index: usize,
        items: &Vec<MaybeShaped>,
        results: &mut Vec<GlyphInfo>,
    ) -> (r: Result<(), ShaperError>)
        requires
            self.wf(),
            font_index < self.spec_fonts().len(),
            slice_index + spec_byte_len(s@) <= usize::MAX,
            spec_wf_items(s@, slice_index as int, items.deep_view()),
        ensures
            old(results)@.is_prefix_of(final(results)@),
            ({
                let outcome = spec_shape_items(
                    self.spec_fonts(),
                    font_index as int,
                    s@,
                    slice_index as int,
                    items.deep_view(),
                    0,
                );
                match r {
                    Ok(u) => outcome == Ok::<Seq<GlyphInfo>, ShaperError>(
                        final(results)@.skip(old(results)@.len() as int),
                    ),
                    Err(e) => outcome == Err::<Seq<GlyphInfo>, ShaperError>(e),
                }
            }),
        decreases spec_placeholder_flag(s@), 2 * (self.spec_fonts().len() - font_index), 0int,
    {
        let ghost fonts_v = self.spec_fonts();
        let ghost ivs = items.deep_view();
        let ghost base = results@;
        let nfonts = self.fonts.len();
        let m: usize = items.len();
        let mut k: usize = 0;
        while k < m
            invariant
                k <= m,
                m == ivs.len(),
                self.wf(),
                fonts_v == self.spec_fonts(),
                nfonts == fonts_v.len(),
                font_index < nfonts,
                slice_index + spec_byte_len(s@) <= usize::MAX,
                items.deep_view() == ivs,
                spec_wf_items(s@, slice_index as int, ivs),
                base == old(results)@,
                base.is_prefix_of(results@),
                spec_shape_items(fonts_v, font_index as int, s@, slice_index as int, ivs, 0) == (
                match spec_shape_items(
                    fonts_v,
                    font_index as int,
                    s@,
                    slice_index as int,
                    ivs,
                    k as int,
                ) {
                    Ok(t) => Ok::<Seq<GlyphInfo>, ShaperError>(
                        results@.skip(base.len() as int) + t,
                    ),
                    Err(e) => Err::<Seq<GlyphInfo>, ShaperError>(e),
                }),
            decreases m - k,
        {
            let ghost acc = results@.skip(base.len() as int);
            proof {
                assert(ivs[k as int] == items@[k as int]@);
            }
            let item = &items[k];
            match item {
                MaybeShaped::Resolved(info) => {
                    let gi = GlyphInfo {
                        font_idx: font_index,
                        glyph_pos: info.glyph_pos,
                        cluster: info.cluster,
                        num_cells: info.num_cells,
                        x_advance: info.x_advance,
                        y_advance: info.y_advance,
                        x_offset: info.x_offset,
                        y_offset: info.y_offset,
                    };
                    results.push(gi);
                    proof {
                        assert(gi == spec_with_font_idx(*info, font_index as int));
                        assert(results@.skip(base.len() as int) =~= acc + seq![gi]);
                        assert(base.is_prefix_of(results@));
                        let spec_k = spec_shape_items(
                            fonts_v,
                            font_index as int,
                            s@,
                            slice_index as int,
                            ivs,
                            k as int,
                        );
                        let spec_k1 = spec_shape_items(
                            fonts_v,
                            font_index as int,
                            s@,
                            slice_index as int,
                            ivs,
                            k + 1,
                        );
                        assert(ivs[k as int] == MaybeShapedView::Resolved(*info));
                        assert(spec_k == (match spec_k1 {
                            Ok(t) => Ok::<Seq<GlyphInfo>, ShaperError>(seq![gi] + t),
                            Err(e) => Err::<Seq<GlyphInfo>, ShaperError>(e),
                        }));
                        match spec_k1 {
                            Ok(t2) => {
                                assert((acc + seq![gi]) + t2 =~= acc + (seq![gi] + t2));
                            },
                            Err(e2) => {},
                        }
                    }
                },
                MaybeShaped::Unresolved { raw, slice_start } => {
                    proof {
                        assert(crate::shaper::spec_item_end(ivs[k as int]) <= slice_index
                            + spec_byte_len(s@));
                        assert(crate::shaper::spec_unresolved_ok(
                            s@,
                            slice_index as int,
                            ivs[k as int],
                        ));
                        let (a, b) = choose|a: int, b: int|
                            crate::shaper::spec_is_span(
                                s@,
                                slice_index as int,
                                raw@,
                                *slice_start as int,
                                a,
                                b,
                            );
                        if spec_all_placeholders(s@) {
                            assert forall|ii: int| 0 <= ii < raw@.len() implies raw@[ii]
                                == '?' by {
                                assert(raw@[ii] == s@[a + ii]);
                            }
                        }
                        assert(spec_placeholder_flag(raw@) <= spec_placeholder_flag(s@));
                    }
                    let ghost pre = results@;
                    match self.shape_into(font_index + 1, raw.as_str(), *slice_start, results) {
                        Ok(_) => {
                            proof {
                                let h = results@.skip(pre.len() as int);
                                assert(results@.skip(base.len() as int) =~= acc + h);
                                assert(base.is_prefix_of(results@));
                                let spec_k = spec_shape_items(
                                    fonts_v,
                                    font_index as int,
                                    s@,
                                    slice_index as int,
                                    ivs,
                                    k as int,
                                );
                                let spec_k1 = spec_shape_items(
                                    fonts_v,
                                    font_index as int,
                                    s@,
                                    slice_index as int,
                                    ivs,
                                    k + 1,
                                );
                                assert(ivs[k as int] == (MaybeShapedView::Unresolved {
                                    raw: raw@,
                                    slice_start: *slice_start as int,
                                }));
                                assert(spec_shape_into(
                                    fonts_v,
                                    font_index + 1,
                                    raw@,
                                    *slice_start as int,
                                ) == Ok::<Seq<GlyphInfo>, ShaperError>(h));
                                assert(spec_k == (match spec_k1 {
                                    Ok(t) => Ok::<Seq<GlyphInfo>, ShaperError>(h + t),
                                    Err(e) => Err::<Seq<GlyphInfo>, ShaperError>(e),
                                }));
                                match spec_k1 {
                                    Ok(t2) => {
                                        assert((acc + h) + t2 =~= acc + (h + t2));
                                    },
                                    Err(e2) => {},
                                }
                            }
                        },
                        Err(e) => {
                            proof {
                                assert(spec_shape_items(
                                    fonts_v,
                                    font_index as int,
                                    s@,
                                    slice_index as int,
                                    ivs,
                                    k as int,
                                ) == Err::<Seq<GlyphInfo>, ShaperError>(e));
                                assert(base.is_prefix_of(results@));
                            }
                            return Err(e);
                        },
                    }
                },
            }
            k = k + 1;
        }
        proof {
            assert(spec_shape_items(fonts_v, font_index as int, s@, slice_index as int, ivs, m as int)
                == Ok::<Seq<GlyphInfo>, ShaperError>(Seq::empty()));
            assert(results@.skip(base.len() as int) + Seq::<GlyphInfo>::empty() =~= results@.skip(
                base.len() as int,
            ));
        }
        Ok(())
    }

    /// Resolves one cluster's text against the chain: every character
    /// becomes a glyph of the first fallback font that covers it, in text
    /// order; when nothing covers a character the placeholder retry and
    /// failure policy of the chain applies.
    pub fn shape(&self, text: &str) -> (r: Result<Vec<GlyphInfo>, ShaperError>)
        requires
            self.wf(),
            spec_byte_len(text@) <= usize::MAX,
        ensures
            match r {
                Ok(v) => self.spec_shape(text@) == Ok::<Seq<GlyphInfo>, ShaperError>(v@),
                Err(e) => self.spec_shape(text@) == Err::<Seq<GlyphInfo>, ShaperError>(e),
            },
            r matches Ok(v) ==> {
                // Output preserves text order, whatever fallback recursions
                // produced it, and stays inside the cluster's byte range.
                &&& forall|a: int, b: int|
                    0 <= a <= b < v@.len() ==> (#[trigger] v@[a]).cluster <= (
                    #[trigger] v@[b]).cluster
                &&& forall|k: int|
                    0 <= k < v@.len() ==> (#[trigger] v@[k]).cluster <= spec_byte_len(text@)
            },
    {
        proof {
            lemma_shape_into_ordered(self.spec_fonts(), 0, text@, 0);
        }
        let mut results: Vec<GlyphInfo> = Vec::new();
        match self.shape_into(0, text, 0, &mut results) {
            Ok(_) => {
                proof {
                    assert(results@.skip(0) =~= results@);
                    let g = spec_shape_into(self.spec_fonts(), 0, text@, 0).unwrap();
                    assert(g == results@);
                    assert forall|a: int, b: int|
                        0 <= a <= b < results@.len() implies (#[trigger] results@[a]).cluster <= (
                        #[trigger] results@[b]).cluster by {
                        assert(g[a].cluster <= g[b].cluster);
                    }
                    assert forall|k: int|
                        0 <= k < results@.len() implies (#[trigger] results@[k]).cluster
                        <= spec_byte_len(text@) by {
                        assert(g[k].cluster <= 0 + spec_byte_len(text@));
                    }
                }
                Ok(results)
            },
            Err(e) => Err(e),
        }
    }
}

/// Resolving is deterministic: the outcome is a fixed function of the font
/// chain and the text, so two resolvers over equal chains yield identical
/// results for the same text.
pub proof fn lemma_shape_deterministic<F: ShapeFont>(
    a: &FallbackShaper<F>,
    b: &FallbackShaper<F>,
    text: Seq<char>,
)
    requires
        a.spec_fonts() == b.spec_fonts(),
    ensures
        a.spec_shape(text) == b.spec_shape(text),
{
}


/// Everything a successful resolution returns lies inside the input's byte
/// range, and the glyphs come in text order: offsets never decrease,
/// however many fallback recursions produced them.
pub proof fn lemma_shape_into_ordered<F: ShapeFont>(
    fonts: Seq<Option<F>>,
    font_index: int,
    text: Seq<char>,
    slice_index: int,
)
    requires
        0 <= font_index <= fonts.len(),
        0 <= slice_index,
        slice_index + spec_byte_len(text) <= usize::MAX,
        spec_fonts_wf(fonts),
    ensures
        spec_shape_into(fonts, font_index, text, slice_index) matches Ok(g) ==> {
            &&& forall|k: int|
                0 <= k < g.len() ==> slice_index <= (#[trigger] g[k]).cluster && g[k].cluster
                    <= slice_index + spec_byte_len(text)
            &&& forall|a: int, b: int|
                0 <= a <= b < g.len() ==> (#[trigger] g[a]).cluster <= (#[trigger] g[b]).cluster
        },
    decreases spec_placeholder_flag(text), 2 * (fonts.len() - font_index) + 1, 0int,
{
    if font_index >= fonts.len() {
        if !spec_all_placeholders(text) {
            lemma_placeholder_byte_len(text);
            lemma_byte_len_lower(text);
            lemma_shape_into_ordered(fonts, 0, spec_placeholder_text(text), slice_index);
        }
    } else {
        match fonts[font_index] {
            None => {
                lemma_shape_into_ordered(fonts, font_index + 1, text, slice_index);
            },
            Some(font) => {
                assert(spec_font_wf(font));
                match font.shape_result(text, slice_index) {
                    None => {},
                    Some(items) => {
                        assert(spec_wf_items(text, slice_index, items));
                        lemma_shape_items_ordered(fonts, font_index, text, slice_index, items, 0);
                    },
                }
            },
        }
    }
}

/// The glyphs folded from the runs `k ..` start no earlier than run `k`
/// does, stay inside the input's byte range, and never step backwards.
proof fn lemma_shape_items_ordered<F: ShapeFont>(
    fonts: Seq<Option<F>>,
    font_index: int,
    text: Seq<char>,
    slice_index: int,
    items: Seq<MaybeShapedView>,
    k: int,
)
    requires
        0 <= font_index < fonts.len(),
        0 <= k,
        0 <= slice_index,
        slice_index + spec_byte_len(text) <= usize::MAX,
        spec_fonts_wf(fonts),
        spec_wf_items(text, slice_index, items),
    ensures
        spec_shape_items(fonts, font_index, text, slice_index, items, k) matches Ok(g) ==> {
            let lower = if k < items.len() {
                crate::shaper::spec_item_start(items[k])
            } else {
                slice_index + spec_byte_len(text)
            };
            &&& forall|i: int|
                0 <= i < g.len() ==> lower <= (#[trigger] g[i]).cluster && g[i].cluster
                    <= slice_index + spec_byte_len(text)
            &&& forall|a: int, b: int|
                0 <= a <= b < g.len() ==> (#[trigger] g[a]).cluster <= (#[trigger] g[b]).cluster
        },
    decreases spec_placeholder_flag(text), 2 * (fonts.len() - font_index), items.len() - k,
{
    if k >= items.len() {
    } else {
        lemma_shape_items_ordered(fonts, font_index, text, slice_index, items, k + 1);
        let upper = slice_index + spec_byte_len(text);
        let start_k = crate::shaper::spec_item_start(items[k]);
        let end_k = crate::shaper::spec_item_end(items[k]);
        assert(slice_index <= start_k && end_k <= upper);
        let next_lower = if k + 1 < items.len() {
            crate::shaper::spec_item_start(items[k + 1])
        } else {
            upper
        };
        assert(end_k <= next_lower);
        match items[k] {
            MaybeShapedView::Resolved(g0) => {
                match spec_shape_items(fonts, font_index, text, slice_index, items, k + 1) {
                    Ok(t) => {
                        let h = seq![spec_with_font_idx(g0, font_index)];
                        assert(h[0].cluster == start_k);
                        assert forall|a: int, b: int|
                            0 <= a <= b < (h + t).len() implies ((h + t)[a]).cluster <= ((h
                                + t)[b]).cluster by {
                            if a >= 1 {
                                assert((h + t)[a] == t[a - 1] && (h + t)[b] == t[b - 1]);
                            } else if b >= 1 {
                                assert((h + t)[b] == t[b - 1]);
                                assert(start_k == end_k);
                            }
                        }
                    },
                    Err(_) => {},
                }
            },
            MaybeShapedView::Unresolved { raw, slice_start } => {
                assert(crate::shaper::spec_unresolved_ok(text, slice_index, items[k]));
                let (sa, sb) = choose|a: int, b: int|
                    crate::shaper::spec_is_span(text, slice_index, raw, slice_start, a, b);
                if spec_all_placeholders(text) {
                    assert forall|ii: int| 0 <= ii < raw.len() implies raw[ii] == '?' by {
                        assert(raw[ii] == text[sa + ii]);
                    }
                }
                assert(spec_placeholder_flag(raw) <= spec_placeholder_flag(text));
                lemma_shape_into_ordered(fonts, font_index + 1, raw, slice_start);
                match spec_shape_into(fonts, font_index + 1, raw, slice_start) {
                    Ok(h) => {
                        assert(slice_start == start_k);
                        assert(slice_start + spec_byte_len(raw) == end_k);
                        match spec_shape_items(fonts, font_index, text, slice_index, items, k + 1) {
                            Ok(t) => {
                                assert forall|i: int|
                                    0 <= i < (h + t).len() implies start_k <= (#[trigger] (h
                                    + t)[i]).cluster && ((h + t)[i]).cluster <= upper by {
                                    if i < h.len() {
                                        assert((h + t)[i] == h[i]);
                                    } else {
                                        assert((h + t)[i] == t[i - h.len()]);
                                    }
                                }
                                assert forall|a: int, b: int|
                                    0 <= a <= b < (h + t).len() implies ((h + t)[a]).cluster <= ((h
                                    + t)[b]).cluster by {
                                    if b < h.len() {
                                        assert((h + t)[a] == h[a] && (h + t)[b] == h[b]);
                                    } else if a >= h.len() {
                                        assert((h + t)[a] == t[a - h.len()] && (h + t)[b] == t[b
                                            - h.len()]);
                                    } else {
                                        assert((h + t)[a] == h[a] && (h + t)[b] == t[b - h.len()]);
                                        assert(h[a].cluster <= end_k);
                                        assert(t[b - h.len()].cluster >= next_lower);
                                    }
                                }
                            },
                            Err(_) => {},
                        }
                    },
                    Err(_) => {},
                }
            },
        }
    }
}

} // verus!
