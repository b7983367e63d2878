//! Shaping: turning a cluster's text into glyph records. A backend shapes
//! text against one font and reports, run by run, either a resolved glyph or
//! an unresolved span with its byte offset; the fallback resolver stitches
//! backends together.

use crate::cell::grapheme_column_width;
use crate::cellcluster::spec_byte_len;
use crate::strutil::string_push;
use vstd::prelude::*;
use vstd::utf8::{encode_scalar, encode_utf8};

verus! {

/// One resolved glyph: which fallback font produced it, the glyph's
/// identifier in that font, the byte offset of its text in the cluster, how
/// many display cells it covers, and its advance and offset in 64ths of a
/// pixel.
#[derive(Debug, Clone, Copy, PartialEq, Eq, Structural)]
pub struct GlyphInfo {
    pub font_idx: usize,
    pub glyph_pos: u32,
    pub cluster: usize,
    pub num_cells: usize,
    pub x_advance: i64,
    pub y_advance: i64,
    pub x_offset: i64,
    pub y_offset: i64,
}

/// An opaque failure reported by a shaping or rasterizing backend.
#[derive(Debug, Clone, Copy, PartialEq, Eq, Structural)]
pub struct BackendError;

/// Why resolving a cluster failed.
#[derive(Debug, Clone, Copy, PartialEq, Eq, Structural)]
pub enum ShaperError {
    /// Every font in the chain failed to shape, and the placeholder retry
    /// failed as well.
    NoUsableFallback,
    /// A backend failed; the failure is passed through, never swallowed.
    Backend,
}

/// One run of a backend's output: a resolved glyph, or a span the font has
/// no glyphs for, tagged with its byte offset in the cluster.
#[derive(Debug, Clone)]
pub enum MaybeShaped {
    Resolved(GlyphInfo),
    Unresolved { raw: String, slice_start: usize },
}

/// The ghost value of a [`MaybeShaped`] run.
#[verifier::ext_equal]
pub enum MaybeShapedView {
    Resolved(GlyphInfo),
    Unresolved { raw: Seq<char>, slice_start: int },
}

impl View for MaybeShaped {
    type V = MaybeShapedView;

    open spec fn view(&self) -> MaybeShapedView {
        match self {
            MaybeShaped::Resolved(g) => MaybeShapedView::Resolved(*g),
            MaybeShaped::Unresolved { raw, slice_start } => MaybeShapedView::Unresolved {
                raw: raw@,
                slice_start: *slice_start as int,
            },
        }
    }
}

impl DeepView for MaybeShaped {
    type V = MaybeShapedView;

    open spec fn deep_view(&self) -> MaybeShapedView {
        self@
    }
}

/// The byte offset where a run begins.
pub open spec fn spec_item_start(it: MaybeShapedView) -> int {
    match it {
        MaybeShapedView::Resolved(g) => g.cluster as int,
        MaybeShapedView::Unresolved { raw, slice_start } => slice_start,
    }
}

/// The byte offset where a run ends (a resolved glyph is treated as a
/// point at its own offset).
pub open spec fn spec_item_end(it: MaybeShapedView) -> int {
    match it {
        MaybeShapedView::Resolved(g) => g.cluster as int,
        MaybeShapedView::Unresolved { raw, slice_start } => slice_start + spec_byte_len(raw),
    }
}

/// `raw` sits in `text` as the characters `a .. b`, and its byte offset is
/// the caller's offset plus the bytes before it.
pub open spec fn spec_is_span(
    text: Seq<char>,
    slice_index: int,
    raw: Seq<char>,
    slice_start: int,
    a: int,
    b: int,
) -> bool {
    0 <= a <= b <= text.len() && raw == text.subrange(a, b) && slice_start == slice_index
        + spec_byte_len(text.take(a))
}

/// An unresolved run is a non-empty contiguous piece of the input text with
/// a consistent byte offset.
pub open spec fn spec_unresolved_ok(text: Seq<char>, slice_index: int, it: MaybeShapedView) -> bool {
    match it {
        MaybeShapedView::Resolved(g) => true,
        MaybeShapedView::Unresolved { raw, slice_start } => raw.len() > 0 && exists|a: int, b: int|
            spec_is_span(text, slice_index, raw, slice_start, a, b),
    }
}

/// What every backend's output satisfies: runs stay within the input's byte
/// range, come in text order, and unresolved runs are real spans of the
/// input.
pub open spec fn spec_wf_items(
    text: Seq<char>,
    slice_index: int,
    items: Seq<MaybeShapedView>,
) -> bool {
    &&& forall|k: int|
        0 <= k < items.len() ==> slice_index <= spec_item_start(#[trigger] items[k])
            && spec_item_end(items[k]) <= slice_index + spec_byte_len(text)
    &&& forall|k: int|
        0 <= k < items.len() - 1 ==> spec_item_end(#[trigger] items[k]) <= spec_item_start(
            items[k + 1],
        )
    &&& forall|k: int| 0 <= k < items.len() ==> spec_unresolved_ok(text, slice_index, #[trigger] items[k])
}

/// A font a shaping backend can drive: shaping is a fixed function of the
/// text and offset (the determinism the resolver's contract rests on), and
/// its successful outputs are well-formed runs.
pub trait ShapeFont: Sized {
    /// The backend's model: what shaping yields, or `None` when the backend
    /// fails.
    spec fn shape_result(&self, text: Seq<char>, slice_index: int) -> Option<Seq<MaybeShapedView>>;

    /// Every successful output is a well-formed run sequence for its input.
    proof fn shape_result_wf(&self, text: Seq<char>, slice_index: int)
        requires
            0 <= slice_index,
            slice_index + spec_byte_len(text) <= usize::MAX,
        ensures
            match self.shape_result(text, slice_index) {
                Some(items) => spec_wf_items(text, slice_index, items),
                None => true,
            },
    ;

    /// Shapes `text`, whose first byte sits at `slice_index` in the
    /// cluster.
    fn shape_text(&self, text: &str, slice_index: usize) -> (r: Result<
        Vec<MaybeShaped>,
        BackendError,
    >)
        requires
            slice_index + spec_byte_len(text@) <= usize::MAX,
        ensures
            match r {
                Ok(v) => self.shape_result(text@, slice_index as int) == Some(v.deep_view()),
                Err(e) => self.shape_result(text@, slice_index as int) is None,
            },
    ;
}

/// The number of UTF-8 bytes encoding one character.
pub fn char_utf8_len(c: char) -> (r: usize)
    ensures
        r == encode_scalar(c as u32).len(),
        1 <= r <= 4,
{
    let u = c as u32;
    if u < 0x80 {
        1
    } else if u < 0x800 {
        2
    } else if u < 0x10000 {
        proof {
            assert(!(u < 0x80) && !(u < 0x800) && u < 0x10000 ==> encode_scalar(u).len() == 3) by {
                assert(u >= 0x800 && u < 0x10000 ==> !vstd::utf8::has_width_1_encoding(u)
                    && !vstd::utf8::has_width_2_encoding(u) && vstd::utf8::has_width_3_encoding(u));
            }
        }
        3
    } else {
        4
    }
}

/// Appending a character appends its encoding.
pub proof fn lemma_encode_snoc(s: Seq<char>, c: char)
    ensures
        encode_utf8(s.push(c)) == encode_utf8(s) + encode_scalar(c as u32),
    decreases s.len(),
{
    if s.len() == 0 {
        assert(s.push(c)[0] == c);
        assert(s.push(c).drop_first() =~= Seq::<char>::empty());
        assert(encode_utf8(s.push(c).drop_first()) =~= Seq::<u8>::empty());
        assert(encode_utf8(s.push(c)) =~= encode_utf8(s) + encode_scalar(c as u32));
    } else {
        assert(s.push(c)[0] == s[0]);
        assert(s.push(c).drop_first() =~= s.drop_first().push(c));
        lemma_encode_snoc(s.drop_first(), c);
        assert(encode_utf8(s.push(c)) =~= encode_utf8(s) + encode_scalar(c as u32));
    }
}

/// One entry of a font's character map: a character the font covers, its
/// glyph identifier, and the glyph's horizontal advance in 64ths of a
/// pixel.
#[derive(Debug, Clone, Copy, PartialEq, Eq, Structural)]
pub struct CharGlyph {
    pub ch: char,
    pub glyph_id: u32,
    pub x_advance: i64,
}

/// A loaded font modeled by the plain values shaping reads from it: which
/// characters map to which glyphs. A backend (or a test) fills the table;
/// the shaping itself is verified.
#[derive(Debug, Clone)]
pub struct FontInstance {
    pub glyphs: Vec<CharGlyph>,
}

/// The first table entry for a character, if any.
pub open spec fn spec_lookup(table: Seq<CharGlyph>, c: char) -> Option<CharGlyph>
    decreases table.len(),
{
    if table.len() == 0 {
        None
    } else if table[0].ch == c {
        Some(table[0])
    } else {
        spec_lookup(table.drop_first(), c)
    }
}

/// The glyph record for one resolved character.
pub open spec fn spec_char_glyph_info(g: CharGlyph, at: int, c: char) -> GlyphInfo {
    GlyphInfo {
        font_idx: 0,
        glyph_pos: g.glyph_id,
        cluster: at as usize,
        num_cells: crate::cell::spec_grapheme_width(seq![c]) as usize,
        x_advance: g.x_advance,
        y_advance: 0,
        x_offset: 0,
        y_offset: 0,
    }
}

/// How the table-driven backend partitions text: characters the font
/// covers become resolved glyphs; consecutive uncovered characters pool
/// into one unresolved run.
pub open spec fn spec_partition(
    table: Seq<CharGlyph>,
    text: Seq<char>,
    slice_index: int,
) -> Seq<MaybeShapedView>
    decreases text.len(),
{
    if text.len() == 0 {
        Seq::empty()
    } else {
        let prev = spec_partition(table, text.drop_last(), slice_index);
        let c = text.last();
        let at = slice_index + spec_byte_len(text.drop_last());
        match spec_lookup(table, c) {
            Some(g) => prev.push(MaybeShapedView::Resolved(spec_char_glyph_info(g, at, c))),
            None => {
                if prev.len() > 0 && (prev.last() matches MaybeShapedView::Unresolved { .. }) {
                    let last = prev.last();
                    let merged = match last {
                        MaybeShapedView::Unresolved { raw, slice_start } => {
                            MaybeShapedView::Unresolved { raw: raw.push(c), slice_start }
                        },
                        MaybeShapedView::Resolved(g) => last,
                    };
                    prev.update(prev.len() - 1, merged)
                } else {
                    prev.push(
                        MaybeShapedView::Unresolved { raw: seq![c], slice_start: at },
                    )
                }
            },
        }
    }
}

/// Encoding a concatenation concatenates the encodings.
pub proof fn lemma_encode_concat(a: Seq<char>, b: Seq<char>)
    ensures
        encode_utf8(a + b) == encode_utf8(a) + encode_utf8(b),
    decreases a.len(),
{
    if a.len() == 0 {
        assert(a + b =~= b);
        assert(encode_utf8(a) =~= Seq::<u8>::empty());
        assert(encode_utf8(a + b) =~= encode_utf8(a) + encode_utf8(b));
    } else {
        assert((a + b)[0] == a[0]);
        assert((a + b).drop_first() =~= a.drop_first() + b);
        lemma_encode_concat(a.drop_first(), b);
        assert(encode_utf8(a + b) =~= encode_utf8(a) + encode_utf8(b));
    }
}

/// A prefix never encodes to more bytes than the whole.
pub proof fn lemma_byte_len_take(text: Seq<char>, i: int)
    requires
        0 <= i <= text.len(),
    ensures
        spec_byte_len(text.take(i)) + spec_byte_len(text.skip(i)) == spec_byte_len(text),
{
    assert(text.take(i) + text.skip(i) =~= text);
    lemma_encode_concat(text.take(i), text.skip(i));
}

/// The partition of `text` is a well-formed run sequence; moreover, when
/// its last run is unresolved, that run reaches the end of the text.
pub proof fn lemma_partition_wf(table: Seq<CharGlyph>, text: Seq<char>, slice_index: int)
    requires
        0 <= slice_index,
        slice_index + spec_byte_len(text) <= usize::MAX,
    ensures
        spec_wf_items(text, slice_index, spec_partition(table, text, slice_index)),
        ({
            let items = spec_partition(table, text, slice_index);
            items.len() > 0 ==> match items.last() {
                MaybeShapedView::Unresolved { raw, slice_start } => exists|a: int|
                    spec_is_span(text, slice_index, raw, slice_start, a, text.len() as int),
                MaybeShapedView::Resolved(g) => true,
            }
        }),
    decreases text.len(),
{
    let items = spec_partition(table, text, slice_index);
    if text.len() == 0 {
        assert(items =~= Seq::<MaybeShapedView>::empty());
    } else {
        let prior = text.drop_last();
        let prev = spec_partition(table, prior, slice_index);
        let c = text.last();
        let at = slice_index + spec_byte_len(prior);
        lemma_encode_snoc(prior, c);
        assert(text.drop_last().push(c) =~= text);
        assert(spec_byte_len(text) == spec_byte_len(prior) + encode_scalar(c as u32).len());
        assert(spec_byte_len(prior) <= spec_byte_len(text));
        lemma_partition_wf(table, prior, slice_index);
        // Re-witness every old span against the longer text.
        assert forall|k: int| 0 <= k < prev.len() implies spec_unresolved_ok(
            text,
            slice_index,
            #[trigger] prev[k],
        ) by {
            match prev[k] {
                MaybeShapedView::Unresolved { raw, slice_start } => {
                    let (a, b) = choose|a: int, b: int|
                        spec_is_span(prior, slice_index, raw, slice_start, a, b);
                    assert(text.subrange(a, b) =~= prior.subrange(a, b));
                    assert(text.take(a) =~= prior.take(a));
                    assert(spec_is_span(text, slice_index, raw, slice_start, a, b));
                },
                MaybeShapedView::Resolved(g) => {},
            }
        }
        match spec_lookup(table, c) {
            Some(g) => {
                assert(items == prev.push(
                    MaybeShapedView::Resolved(spec_char_glyph_info(g, at, c)),
                ));
                assert(forall|k: int| 0 <= k < prev.len() ==> items[k] == prev[k]);
                assert(spec_item_start(items[items.len() - 1]) == at);
                assert(spec_item_end(items[items.len() - 1]) == at);
            },
            None => {
                if prev.len() > 0 && (prev.last() matches MaybeShapedView::Unresolved { .. }) {
                    match prev.last() {
                        MaybeShapedView::Unresolved { raw, slice_start } => {
                            let merged = MaybeShapedView::Unresolved {
                                raw: raw.push(c),
                                slice_start,
                            };
                            assert(items == prev.update(prev.len() - 1, merged));
                            assert(forall|k: int| 0 <= k < prev.len() - 1 ==> items[k] == prev[k]);
                            let a = choose|a: int|
                                spec_is_span(
                                    prior,
                                    slice_index,
                                    raw,
                                    slice_start,
                                    a,
                                    prior.len() as int,
                                );
                            assert(raw.push(c) =~= text.subrange(a, text.len() as int)) by {
                                assert(raw == prior.subrange(a, prior.len() as int));
                            }
                            assert(text.take(a) =~= prior.take(a));
                            assert(spec_is_span(
                                text,
                                slice_index,
                                raw.push(c),
                                slice_start,
                                a,
                                text.len() as int,
                            ));
                            lemma_encode_snoc(raw, c);
                            assert(spec_byte_len(raw.push(c)) == spec_byte_len(raw)
                                + encode_scalar(c as u32).len());
                            assert(spec_item_end(merged) <= slice_index + spec_byte_len(text)) by {
                                assert(spec_item_end(prev.last()) <= slice_index + spec_byte_len(
                                    prior,
                                ));
                            }
                            assert(raw.push(c).len() > 0);
                        },
                        MaybeShapedView::Resolved(g) => {
                            assert(false);
                        },
                    }
                } else {
                    let fresh = MaybeShapedView::Unresolved { raw: seq![c], slice_start: at };
                    assert(items == prev.push(fresh));
                    assert(forall|k: int| 0 <= k < prev.len() ==> items[k] == prev[k]);
                    assert(seq![c] =~= text.subrange(
                        text.len() - 1,
                        text.len() as int,
                    ));
                    assert(text.take(text.len() - 1) =~= prior);
                    assert(spec_is_span(
                        text,
                        slice_index,
                        seq![c],
                        at,
                        text.len() - 1,
                        text.len() as int,
                    ));
                    assert(spec_item_end(fresh) == at + spec_byte_len(seq![c]));
                    assert(spec_byte_len(seq![c]) == encode_scalar(c as u32).len()) by {
                        assert(seq![c].drop_first().len() == 0);
                        assert(encode_utf8(seq![c].drop_first()) =~= Seq::<u8>::empty());
                        assert(seq![c][0] == c);
                        assert(encode_utf8(seq![c]) =~= encode_scalar(c as u32));
                    }
                }
            },
        }
    }
}

impl FontInstance {
    /// A font covering exactly the given characters.
    pub fn new(glyphs: Vec<CharGlyph>) -> (r: FontInstance)
        ensures
            r.glyphs@ == glyphs@,
    {
        FontInstance { glyphs }
    }

    /// The first table entry for `c`, if the font covers it.
    pub fn lookup(&self, c: char) -> (r: Option<CharGlyph>)
        ensures
            r == spec_lookup(self.glyphs@, c),
    {
        let n: usize = self.glyphs.len();
        let mut i: usize = 0;
        proof {
            assert(self.glyphs@.skip(0) =~= self.glyphs@);
        }
        while i < n
            invariant
                i <= n,
                n == self.glyphs@.len(),
                spec_lookup(self.glyphs@, c) == spec_lookup(self.glyphs@.skip(i as int), c),
            decreases n - i,
        {
            proof {
                assert(self.glyphs@.skip(i as int)[0] == self.glyphs@[i as int]);
                assert(self.glyphs@.skip(i as int).drop_first() =~= self.glyphs@.skip(i + 1));
            }
            if self.glyphs[i].ch == c {
                return Some(self.glyphs[i]);
            }
            i = i + 1;
        }
        proof {
            assert(self.glyphs@.skip(n as int).len() == 0);
        }
        None
    }

    /// Splits `text` into runs: covered characters become resolved glyphs,
    /// consecutive uncovered characters pool into unresolved spans.
    pub fn partition_text(&self, text: &str, slice_index: usize) -> (r: Vec<MaybeShaped>)
        requires
            slice_index + spec_byte_len(text@) <= usize::MAX,
        ensures
            r.deep_view() == spec_partition(self.glyphs@, text@, slice_index as int),
    {
        let n: usize = text.unicode_len();
        let mut out: Vec<MaybeShaped> = Vec::new();
        let mut off: usize = slice_index;
        let mut i: usize = 0;
        proof {
            assert(text@.take(0).len() == 0);
            assert(encode_utf8(text@.take(0)) =~= Seq::<u8>::empty());
            assert(spec_partition(self.glyphs@, text@.take(0), slice_index as int)
                =~= Seq::<MaybeShapedView>::empty());
        }
        while i < n
            invariant
                i <= n,
                n == text@.len(),
                slice_index + spec_byte_len(text@) <= usize::MAX,
                off == slice_index + spec_byte_len(text@.take(i as int)),
                spec_byte_len(text@.take(i as int)) <= spec_byte_len(text@),
                out.deep_view() == spec_partition(
                    self.glyphs@,
                    text@.take(i as int),
                    slice_index as int,
                ),
            decreases n - i,
        {
            let ghost prev_dv = out.deep_view();
            let c = text.get_char(i);
            proof {
                assert(text@.take(i + 1).drop_last() =~= text@.take(i as int));
                assert(text@.take(i + 1) =~= text@.take(i as int).push(c));
                lemma_encode_snoc(text@.take(i as int), c);
                assert(spec_byte_len(text@.take(i + 1)) == spec_byte_len(text@.take(i as int))
                    + encode_scalar(c as u32).len());
                lemma_byte_len_take(text@, i + 1);
            }
            let cl = char_utf8_len(c);
            match self.lookup(c) {
                Some(g) => {
                    let mut one = String::new();
                    string_push(&mut one, c);
                    proof {
                        assert(one@ =~= seq![c]);
                    }
                    let w = grapheme_column_width(one.as_str());
                    let info = GlyphInfo {
                        font_idx: 0,
                        glyph_pos: g.glyph_id,
                        cluster: off,
                        num_cells: w,
                        x_advance: g.x_advance,
                        y_advance: 0,
                        x_offset: 0,
                        y_offset: 0,
                    };
                    out.push(MaybeShaped::Resolved(info));
                    proof {
                        assert(info == spec_char_glyph_info(g, off as int, c));
                        assert(out.deep_view() =~~= spec_partition(
                            self.glyphs@,
                            text@.take(i + 1),
                            slice_index as int,
                        ));
                    }
                },
                None => {
                    let extend_last = out.len() > 0 && (matches!(
                        out[out.len() - 1],
                        MaybeShaped::Unresolved { .. }
                    ));
                    if extend_last {
                        match out.pop() {
                            Some(MaybeShaped::Unresolved { mut raw, slice_start }) => {
                                string_push(&mut raw, c);
                                out.push(MaybeShaped::Unresolved { raw, slice_start });
                                proof {
                                    assert(out.deep_view() =~~= spec_partition(
                                        self.glyphs@,
                                        text@.take(i + 1),
                                        slice_index as int,
                                    ));
                                }
                            },
                            _ => {
                                proof {
                                    assert(false);
                                }
                            },
                        }
                    } else {
                        let mut raw = String::new();
                        string_push(&mut raw, c);
                        out.push(MaybeShaped::Unresolved { raw, slice_start: off });
                        proof {
                            assert(raw@ =~= seq![c]);
                            assert(out.deep_view() =~~= spec_partition(
                                self.glyphs@,
                                text@.take(i + 1),
                                slice_index as int,
                            ));
                        }
                    }
                },
            }
            off = off + cl;
            i = i + 1;
        }
        proof {
            assert(text@.take(n as int) =~= text@);
        }
        out
    }
}

impl ShapeFont for FontInstance {
    /// The table-driven backend never fails; its output is the partition of
    /// the text by the font's character coverage.
    open spec fn shape_result(&self, text: Seq<char>, slice_index: int) -> Option<
        Seq<MaybeShapedView>,
    > {
        Some(spec_partition(self.glyphs@, text, slice_index))
    }

    proof fn shape_result_wf(&self, text: Seq<char>, slice_index: int) {
        lemma_partition_wf(self.glyphs@, text, slice_index);
    }

    fn shape_text(&self, text: &str, slice_index: usize) -> (r: Result<
        Vec<MaybeShaped>,
        BackendError,
    >) {
        Ok(self.partition_text(text, slice_index))
    }
}

} // verus!
