//! A glyph atlas without a cache: converts a rasterized glyph into the
//! texture's pixel layout and packs it, returning the sprite together with
//! the glyph's placement data.

use crate::atlas::{Atlas, OutOfTextureSpace, Sprite, MAX_ATLAS_SIDE};
use crate::bitmaps::Image;
use crate::rasterizer::RasterizedGlyph;
use crate::shaper::GlyphInfo;
use crate::utils::Rect;
use vstd::prelude::*;

verus! {

/// One packed glyph: its sprite in the texture plus the shaping offsets and
/// rasterizer bearings needed to place it.
#[derive(Debug, Clone, Copy, PartialEq, Eq, Structural)]
pub struct GlyphTexture {
    pub x_offset: i64,
    pub y_offset: i64,
    pub bearing_x: i64,
    pub bearing_y: i64,
    pub texture: Sprite,
}

/// An atlas that packs rasterized glyphs.
pub struct GlyphAtlas {
    pub atlas: Atlas,
}

impl GlyphAtlas {
    /// A fresh glyph atlas over a square texture of the given side.
    pub fn new(side: usize) -> (r: GlyphAtlas)
        requires
            side <= MAX_ATLAS_SIDE,
        ensures
            r.atlas.wf(),
            r.atlas.spec_side() == side,
            r.atlas.spec_rects() == Seq::<Rect>::empty(),
    {
        GlyphAtlas { atlas: Atlas::new(side) }
    }

    /// Converts the glyph's bitmap into the texture layout and packs it.
    /// Succeeds exactly when the padded bitmap fits, returning its sprite
    /// with the placement data; the failure carries the atlas's
    /// replacement-size hint.
    pub fn load_glyph(&mut self, glyph: &RasterizedGlyph, info: &GlyphInfo) -> (r: Result<
        GlyphTexture,
        OutOfTextureSpace,
    >)
        requires
            old(self).atlas.wf(),
            glyph.width * glyph.height * 4 <= usize::MAX,
            glyph.width + 2 <= MAX_ATLAS_SIDE,
            glyph.height + 2 <= MAX_ATLAS_SIDE,
            glyph.width * glyph.height * 4 <= glyph.data@.len(),
        ensures
            final(self).atlas.wf(),
            final(self).atlas.spec_side() == old(self).atlas.spec_side(),
            r is Ok <==> old(self).atlas.spec_alloc_fits(glyph.width as int, glyph.height as int),
            match r {
                Ok(g) => {
                    &&& final(self).atlas.spec_rects() == old(self).atlas.spec_rects().push(
                        g.texture.rect,
                    )
                    &&& g.texture.rect.width == glyph.width
                    &&& g.texture.rect.height == glyph.height
                    &&& g.x_offset == info.x_offset
                    &&& g.y_offset == info.y_offset
                    &&& g.bearing_x == glyph.left
                    &&& g.bearing_y == glyph.top
                },
                Err(e) => {
                    &&& final(self).atlas.spec_rects() == old(self).atlas.spec_rects()
                    &&& e == (OutOfTextureSpace {
                        size: old(self).atlas.spec_alloc_err_size(
                            glyph.width as int,
                            glyph.height as int,
                        ) as usize,
                    })
                },
            },
    {
        proof {
            assert(glyph.width * 4 <= glyph.width * 4 && (glyph.height > 0 ==> (glyph.height - 1)
                * (glyph.width * 4) + glyph.width * 4 == glyph.height * glyph.width * 4
                && glyph.height * glyph.width * 4 == glyph.width * glyph.height * 4)) by (nonlinear_arith);
        }
        let raw_im = Image::with_rgba32(glyph.width, glyph.height, glyph.width * 4, &glyph.data);
        let bearing_x = glyph.left;
        let bearing_y = glyph.top;
        let x_offset = info.x_offset;
        let y_offset = info.y_offset;
        match self.atlas.allocate(&raw_im) {
            Ok(texture) => Ok(GlyphTexture { texture, x_offset, y_offset, bearing_x, bearing_y }),
            Err(e) => Err(e),
        }
    }
}

} // verus!
