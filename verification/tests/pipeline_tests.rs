//! The whole pipeline on one line of text: cells, clusters, fallback
//! shaping, and the glyph cache over the atlas.

use glyphgrid::cell::CellAttributes;
use glyphgrid::config::TextStyle;
use glyphgrid::fallback::FallbackShaper;
use glyphgrid::glyphcache::GlyphCache;
use glyphgrid::line::Line;
use glyphgrid::rasterizer::{FontRasterizer, RasterizedGlyph};
use glyphgrid::shaper::{BackendError, CharGlyph, FontInstance};

struct CountingRasterizer {
    calls: usize,
}

impl FontRasterizer for CountingRasterizer {
    fn rasterize(&mut self, _glyph_pos: u32) -> Result<RasterizedGlyph, BackendError> {
        self.calls += 1;
        Ok(RasterizedGlyph {
            data: vec![0xffu8; 6 * 6 * 4],
            height: 6,
            width: 6,
            top: 5,
            left: 0,
            has_color: false,
        })
    }
}

fn font(chars: &[(char, u32)]) -> FontInstance {
    let glyphs = chars
        .iter()
        .map(|&(ch, glyph_id)| CharGlyph { ch, glyph_id, x_advance: 640 })
        .collect();
    FontInstance::new(glyphs)
}

#[test]
fn render_one_line_twice() {
    let attrs = CellAttributes::default();
    let line = Line::from_text("a日b", attrs);
    let clusters = line.cluster();
    assert_eq!(clusters.len(), 1);

    let a = font(&[('a', 1), ('b', 2)]);
    let b = font(&[('日', 7)]);
    let shaper = FallbackShaper::new(vec![Some(a), Some(b)]);
    let style = TextStyle::default();

    let mut cache = GlyphCache::new(128);
    let mut rast = CountingRasterizer { calls: 0 };

    let mut frames = Vec::new();
    for _ in 0..2 {
        let mut frame = Vec::new();
        for cluster in &clusters {
            let glyphs = shaper.shape(&cluster.text).expect("all characters resolve");
            assert_eq!(glyphs.len(), 3);
            for info in &glyphs {
                let cached = cache.get_glyph(&mut rast, info, &style).expect("glyph loads");
                let sprite = cached.texture.expect("ink glyphs get sprites");
                // The placement cell index comes from the cluster's byte
                // table.
                let cell_idx = cluster.byte_to_cell_idx[info.cluster];
                frame.push((cell_idx, info.glyph_pos, sprite.rect));
            }
        }
        frames.push(frame);
    }

    // Both frames are identical, and each of the three distinct glyph keys
    // was rasterized exactly once.
    assert_eq!(frames[0], frames[1]);
    assert_eq!(rast.calls, 3);
    assert_eq!(frames[0][0].0, 0);
    assert_eq!(frames[0][1].0, 1);
    assert_eq!(frames[0][2].0, 3);
}
