//! The glyph cache: one rasterize-and-pack per glyph key for the cache's
//! lifetime. A key names the glyph, the fallback font that produced it, and
//! the text style; the cache owns the atlas the sprites live in.

use crate::atlas::{Atlas, OutOfTextureSpace, Sprite, MAX_ATLAS_SIDE};
use crate::bitmaps::Image;
use crate::config::{TextStyle, TextStyleView};
use crate::rasterizer::{FontRasterizer, RasterizedGlyph};
use crate::shaper::GlyphInfo;
use crate::utils::Rect;
use vstd::prelude::*;

verus! {

/// The ghost value of a [`GlyphKey`].
#[verifier::ext_equal]
pub struct GlyphKeyView {
    pub font_idx: int,
    pub glyph_pos: u32,
    pub style: TextStyleView,
}

/// What identifies a cached glyph: the glyph identifier, the fallback font
/// it is meaningful in, and the style it was shaped for.
#[derive(Debug, Clone)]
pub struct GlyphKey {
    pub font_idx: usize,
    pub glyph_pos: u32,
    pub style: TextStyle,
}

impl View for GlyphKey {
    type V = GlyphKeyView;

    open spec fn view(&self) -> GlyphKeyView {
        GlyphKeyView {
            font_idx: self.font_idx as int,
            glyph_pos: self.glyph_pos,
            style: self.style@,
        }
    }
}

impl GlyphKey {
    /// Content equality.
    pub fn eq_key(&self, other: &GlyphKey) -> (r: bool)
        ensures
            r == (self@ == other@),
    {
        self.font_idx == other.font_idx && self.glyph_pos == other.glyph_pos && self.style.eq_style(
            &other.style,
        )
    }
}

/// One cached glyph: shaping offsets, rasterizer bearings, the color flag,
/// and the sprite — absent when the glyph has no visible ink.
#[derive(Debug, Clone, Copy)]
pub struct CachedGlyph {
    pub x_offset: i64,
    pub y_offset: i64,
    pub bearing_x: i64,
    pub bearing_y: i64,
    pub texture: Option<Sprite>,
    pub has_color: bool,
}

/// Why the cache could not produce a glyph.
#[derive(Debug, Clone, Copy)]
pub enum GlyphCacheError {
    /// The atlas is full; the hint sizes a replacement atlas.
    Space(OutOfTextureSpace),
    /// The rasterizer failed or returned a bitmap it cannot have meant:
    /// one whose data does not cover its stated size, or one too large
    /// for any atlas this library accepts.
    Backend,
}

/// The entry list folded into a key-to-glyph map; a later entry for the
/// same key would win, but the cache keeps keys unique.
pub open spec fn spec_entries_map(s: Seq<(GlyphKeyView, CachedGlyph)>) -> Map<
    GlyphKeyView,
    CachedGlyph,
>
    decreases s.len(),
{
    if s.len() == 0 {
        Map::empty()
    } else {
        spec_entries_map(s.drop_last()).insert(s.last().0, s.last().1)
    }
}

/// Membership in the folded map is membership in the entry list.
pub proof fn lemma_entries_map_contains(s: Seq<(GlyphKeyView, CachedGlyph)>, k: GlyphKeyView)
    ensures
        spec_entries_map(s).contains_key(k) <==> exists|i: int|
            0 <= i < s.len() && (#[trigger] s[i]).0 == k,
    decreases s.len(),
{
    if s.len() > 0 {
        lemma_entries_map_contains(s.drop_last(), k);
        if s.last().0 == k {
            assert(s[s.len() - 1].0 == k);
        } else if spec_entries_map(s).contains_key(k) {
            let i = choose|i: int| 0 <= i < s.drop_last().len() && (#[trigger] s.drop_last()[i]).0 == k;
            assert(s[i].0 == k);
        } else {
            assert forall|i: int| 0 <= i < s.len() implies (#[trigger] s[i]).0 != k by {
                if i < s.len() - 1 {
                    assert(s.drop_last()[i] == s[i]);
                }
            }
        }
    }
}

/// With unique keys, the folded map sends each entry's key to its value.
pub proof fn lemma_entries_map_at(s: Seq<(GlyphKeyView, CachedGlyph)>, i: int)
    requires
        0 <= i < s.len(),
        forall|a: int, b: int| 0 <= a < b < s.len() ==> (#[trigger] s[a]).0 != (#[trigger] s[b]).0,
    ensures
        spec_entries_map(s).contains_key(s[i].0),
        spec_entries_map(s)[s[i].0] == s[i].1,
    decreases s.len(),
{
    if i == s.len() - 1 {
        lemma_entries_map_contains(s, s[i].0);
    } else {
        assert(forall|a: int, b: int|
            0 <= a < b < s.drop_last().len() ==> (#[trigger] s.drop_last()[a]).0 != (
            #[trigger] s.drop_last()[b]).0);
        lemma_entries_map_at(s.drop_last(), i);
        assert(s.drop_last()[i] == s[i]);
        assert(s.last().0 != s[i].0);
    }
}

/// A rasterized glyph whose description is consistent and that any atlas
/// of this library could in principle hold.
pub open spec fn spec_glyph_sane(g: RasterizedGlyph) -> bool {
    &&& g.width * g.height * 4 <= usize::MAX
    &&& g.width + 2 <= MAX_ATLAS_SIDE
    &&& g.height + 2 <= MAX_ATLAS_SIDE
    &&& g.width * g.height * 4 <= g.data@.len()
}

/// The glyph cache: at most one rasterization and one atlas allocation per
/// distinct key, for the cache's whole lifetime.
pub struct GlyphCache {
    pub entries: Vec<(GlyphKey, CachedGlyph)>,
    pub atlas: Atlas,
}

impl GlyphCache {
    /// The cached entries, oldest first.
    pub open spec fn spec_entries(&self) -> Seq<(GlyphKeyView, CachedGlyph)> {
        self.entries@.map_values(|e: (GlyphKey, CachedGlyph)| (e.0@, e.1))
    }

    /// The cache as a map from key to glyph.
    pub open spec fn spec_map(&self) -> Map<GlyphKeyView, CachedGlyph> {
        spec_entries_map(self.spec_entries())
    }

    /// The cache invariant: the atlas invariant, plus unique keys.
    pub open spec fn wf(&self) -> bool {
        &&& self.atlas.wf()
        &&& forall|a: int, b: int|
            0 <= a < b < self.spec_entries().len() ==> (#[trigger] self.spec_entries()[a]).0 != (
            #[trigger] self.spec_entries()[b]).0
    }

    /// An empty cache over a fresh atlas of the given side.
    pub fn new(side: usize) -> (r: GlyphCache)
        requires
            side <= MAX_ATLAS_SIDE,
        ensures
            r.wf(),
            r.atlas.spec_side() == side,
            r.atlas.spec_rects() == Seq::<Rect>::empty(),
            r.spec_entries() == Seq::<(GlyphKeyView, CachedGlyph)>::empty(),
    {
        let r = GlyphCache { entries: Vec::new(), atlas: Atlas::new(side) };
        proof {
            assert(r.spec_entries() =~= Seq::<(GlyphKeyView, CachedGlyph)>::empty());
        }
        r
    }

    /// The cached glyph for a key, if any.
    fn find(&self, key: &GlyphKey) -> (r: Option<CachedGlyph>)
        requires
            self.wf(),
        ensures
            match r {
                Some(g) => self.spec_map().contains_key(key@) && g == self.spec_map()[key@],
                None => !self.spec_map().contains_key(key@),
            },
    {
        let n = self.entries.len();
        let mut i: usize = 0;
        while i < n
            invariant
                i <= n,
                self.wf(),
                n == self.spec_entries().len(),
                forall|j: int| 0 <= j < i ==> (#[trigger] self.spec_entries()[j]).0 != key@,
            decreases n - i,
        {
            proof {
                assert(self.spec_entries()[i as int] == (self.entries@[i as int].0@, self.entries@[
                i as int].1));
            }
            if self.entries[i].0.eq_key(key) {
                proof {
                    lemma_entries_map_at(self.spec_entries(), i as int);
                }
                return Some(self.entries[i].1);
            }
            i = i + 1;
        }
        proof {
            lemma_entries_map_contains(self.spec_entries(), key@);
        }
        None
    }

    /// Builds the cached glyph for a rasterizer's output: converts the
    /// bitmap, packs it into the atlas (a glyph with no visible ink gets no
    /// sprite), and pairs it with the shaping offsets. The atlas grows by
    /// exactly the returned sprite, or not at all.
    pub fn load_glyph(&mut self, glyph: &RasterizedGlyph, info: &GlyphInfo) -> (r: Result<
        CachedGlyph,
        GlyphCacheError,
    >)
        requires
            old(self).wf(),
        ensures
            final(self).wf(),
            final(self).spec_entries() == old(self).spec_entries(),
            final(self).atlas.spec_side() == old(self).atlas.spec_side(),
            !spec_glyph_sane(*glyph) ==> (r matches Err(GlyphCacheError::Backend) && *final(self)
                == *old(self)),
            spec_glyph_sane(*glyph) ==> match r {
                Ok(g) => {
                    &&& g.x_offset == info.x_offset
                    &&& g.y_offset == info.y_offset
                    &&& g.bearing_x == glyph.left
                    &&& g.bearing_y == glyph.top
                    &&& g.has_color == glyph.has_color
                    &&& if glyph.width == 0 || glyph.height == 0 {
                        g.texture is None && *final(self) == *old(self)
                    } else {
                        g.texture matches Some(sprite) && sprite.rect.width == glyph.width
                            && sprite.rect.height == glyph.height && final(self).atlas.spec_rects()
                            == old(self).atlas.spec_rects().push(sprite.rect)
                    }
                },
                Err(e) => {
                    &&& glyph.width > 0 && glyph.height > 0
                    &&& !old(self).atlas.spec_alloc_fits(glyph.width as int, glyph.height as int)
                    &&& e matches GlyphCacheError::Space(o) && o.size == old(
                        self,
                    ).atlas.spec_alloc_err_size(glyph.width as int, glyph.height as int) as usize
                    &&& final(self).atlas.spec_rects() == old(self).atlas.spec_rects()
                },
            },
            r is Ok <==> spec_glyph_sane(*glyph) && (glyph.width == 0 || glyph.height == 0 || old(
                self,
            ).atlas.spec_alloc_fits(glyph.width as int, glyph.height as int)),
    {
        // Reject a bitmap whose description is inconsistent or beyond any
        // atlas this library accepts; the backend contract excludes both.
        if glyph.width > MAX_ATLAS_SIDE - 2 || glyph.height > MAX_ATLAS_SIDE - 2 {
            return Err(GlyphCacheError::Backend);
        }
        proof {
            assert(glyph.width * glyph.height * 4 <= 0x4000_0000) by (nonlinear_arith)
                requires
                    glyph.width <= 0x4000 && glyph.height <= 0x4000,
            ;
        }
        let area4 = glyph.width * glyph.height * 4;
        if area4 > glyph.data.len() {
            return Err(GlyphCacheError::Backend);
        }
        if glyph.width == 0 || glyph.height == 0 {
            return Ok(
                CachedGlyph {
                    x_offset: info.x_offset,
                    y_offset: info.y_offset,
                    bearing_x: glyph.left,
                    bearing_y: glyph.top,
                    texture: None,
                    has_color: glyph.has_color,
                },
            );
        }
        proof {
            assert(glyph.width * 4 <= glyph.width * 4 && (glyph.height - 1) * (glyph.width * 4)
                + glyph.width * 4 == glyph.height * glyph.width * 4 && glyph.height * glyph.width
                * 4 == glyph.width * glyph.height * 4) by (nonlinear_arith)
                requires
                    glyph.height >= 1,
            ;
        }
        let raw_im = Image::with_rgba32(glyph.width, glyph.height, glyph.width * 4, &glyph.data);
        let alloc_r = self.atlas.allocate(&raw_im);
        proof {
            assert(self.spec_entries() =~= old(self).spec_entries());
        }
        match alloc_r {
            Ok(sprite) => Ok(
                CachedGlyph {
                    x_offset: info.x_offset,
                    y_offset: info.y_offset,
                    bearing_x: glyph.left,
                    bearing_y: glyph.top,
                    texture: Some(sprite),
                    has_color: glyph.has_color,
                },
            ),
            Err(e) => Err(GlyphCacheError::Space(e)),
        }
    }

    /// Returns the cached glyph for `(info.glyph_pos, info.font_idx,
    /// style)`. On a hit nothing is touched: not the rasterizer, not the
    /// atlas, not the cache. On a miss the rasterizer runs once and, when
    /// it succeeds, the new glyph is cached under the key; a failure leaves
    /// the cache as it was.
    pub fn get_glyph<R: FontRasterizer>(
        &mut self,
        rasterizer: &mut R,
        info: &GlyphInfo,
        style: &TextStyle,
    ) -> (r: Result<CachedGlyph, GlyphCacheError>)
        requires
            old(self).wf(),
        ensures
            final(self).wf(),
            final(self).atlas.spec_side() == old(self).atlas.spec_side(),
            ({
                let key = GlyphKeyView {
                    font_idx: info.font_idx as int,
                    glyph_pos: info.glyph_pos,
                    style: style@,
                };
                if old(self).spec_map().contains_key(key) {
                    // A hit: the one-rasterization-per-key guarantee.
                    &&& r == Ok::<CachedGlyph, GlyphCacheError>(old(self).spec_map()[key])
                    &&& *final(self) == *old(self)
                    &&& *final(rasterizer) == *old(rasterizer)
                } else {
                    match r {
                        Ok(g) => {
                            &&& final(self).spec_entries() == old(self).spec_entries().push(
                                (key, g),
                            )
                            &&& final(self).spec_map() == old(self).spec_map().insert(key, g)
                            &&& g.x_offset == info.x_offset
                            &&& g.y_offset == info.y_offset
                        },
                        Err(e) => {
                            &&& final(self).spec_entries() == old(self).spec_entries()
                            &&& final(self).atlas.spec_rects() == old(self).atlas.spec_rects()
                        },
                    }
                }
            }),
    {
        let key = GlyphKey {
            font_idx: info.font_idx,
            glyph_pos: info.glyph_pos,
            style: style.duplicate(),
        };
        proof {
            assert(key@ == (GlyphKeyView {
                font_idx: info.font_idx as int,
                glyph_pos: info.glyph_pos,
                style: style@,
            }));
        }
        match self.find(&key) {
            Some(g) => Ok(g),
            None => {
                match rasterizer.rasterize(info.glyph_pos) {
                    Err(_) => Err(GlyphCacheError::Backend),
                    Ok(glyph) => {
                        match self.load_glyph(&glyph, info) {
                            Err(e) => Err(e),
                            Ok(g) => {
                                let ghost before = self.spec_entries();
                                self.entries.push((key, g));
                                proof {
                                    assert(self.spec_entries() =~= before.push((key@, g)));
                                    lemma_entries_map_contains(before, key@);
                                    assert(forall|a: int, b: int|
                                        0 <= a < b < self.spec_entries().len() ==> (
                                        #[trigger] self.spec_entries()[a]).0 != (
                                        #[trigger] self.spec_entries()[b]).0);
                                    assert(self.spec_map() == spec_entries_map(
                                        before.push((key@, g)),
                                    ));
                                    assert(before.push((key@, g)).drop_last() =~= before);
                                }
                                Ok(g)
                            },
                        }
                    },
                }
            },
        }
    }
}

} // verus!
