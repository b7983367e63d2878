use glyphgrid::config::TextStyle;
use glyphgrid::glyphcache::{GlyphCache, GlyphCacheError};
use glyphgrid::rasterizer::{FontRasterizer, RasterizedGlyph};
use glyphgrid::shaper::{BackendError, GlyphInfo};

struct CountingRasterizer {
    calls: usize,
    fail: bool,
    width: usize,
    height: usize,
}

impl FontRasterizer for CountingRasterizer {
    fn rasterize(&mut self, _glyph_pos: u32) -> Result<RasterizedGlyph, BackendError> {
        self.calls += 1;
        if self.fail {
            return Err(BackendError);
        }
        Ok(RasterizedGlyph {
            data: vec![0x40u8; self.width * self.height * 4],
            height: self.height,
            width: self.width,
            top: 8,
            left: 1,
            has_color: false,
        })
    }
}

fn info(glyph_pos: u32) -> GlyphInfo {
    GlyphInfo {
        font_idx: 0,
        glyph_pos,
        cluster: 0,
        num_cells: 1,
        x_advance: 640,
        y_advance: 0,
        x_offset: 3,
        y_offset: 4,
    }
}

#[test]
fn cache_rasterizes_each_key_once() {
    let mut cache = GlyphCache::new(64);
    let mut rast = CountingRasterizer { calls: 0, fail: false, width: 10, height: 10 };
    let style = TextStyle::default();

    let first = cache.get_glyph(&mut rast, &info(7), &style).expect("miss loads");
    assert_eq!(rast.calls, 1);
    let second = cache.get_glyph(&mut rast, &info(7), &style).expect("hit");
    assert_eq!(rast.calls, 1);
    assert_eq!(first.texture, second.texture);
    assert_eq!(first.bearing_x, 1);
    assert_eq!(first.bearing_y, 8);
    assert_eq!(first.x_offset, 3);
    assert_eq!(first.y_offset, 4);

    // A different glyph identifier is a different key.
    cache.get_glyph(&mut rast, &info(8), &style).expect("second miss loads");
    assert_eq!(rast.calls, 2);
}

#[test]
fn distinct_styles_are_distinct_keys() {
    let mut cache = GlyphCache::new(64);
    let mut rast = CountingRasterizer { calls: 0, fail: false, width: 4, height: 4 };
    let style = TextStyle::default();
    let bolded = TextStyle { font: style.make_bold().font, foreground: None };
    cache.get_glyph(&mut rast, &info(7), &style).expect("miss");
    cache.get_glyph(&mut rast, &info(7), &bolded).expect("other key misses");
    assert_eq!(rast.calls, 2);
}

#[test]
fn empty_bitmap_gets_no_sprite() {
    let mut cache = GlyphCache::new(64);
    let mut rast = CountingRasterizer { calls: 0, fail: false, width: 0, height: 0 };
    let style = TextStyle::default();
    let g = cache.get_glyph(&mut rast, &info(9), &style).expect("whitespace glyph");
    assert!(g.texture.is_none());
}

#[test]
fn rasterizer_failure_propagates_and_caches_nothing() {
    let mut cache = GlyphCache::new(64);
    let mut rast = CountingRasterizer { calls: 0, fail: true, width: 10, height: 10 };
    let style = TextStyle::default();
    let r = cache.get_glyph(&mut rast, &info(7), &style);
    assert!(matches!(r, Err(GlyphCacheError::Backend)));
    assert_eq!(rast.calls, 1);
    // The failure was not cached: the next call asks the rasterizer again.
    rast.fail = false;
    cache.get_glyph(&mut rast, &info(7), &style).expect("retry succeeds");
    assert_eq!(rast.calls, 2);
}

#[test]
fn full_atlas_reports_space_with_size_hint() {
    let mut cache = GlyphCache::new(8);
    let mut rast = CountingRasterizer { calls: 0, fail: false, width: 10, height: 10 };
    let style = TextStyle::default();
    let r = cache.get_glyph(&mut rast, &info(7), &style);
    match r {
        Err(GlyphCacheError::Space(o)) => assert_eq!(o.size, 16),
        other => panic!("expected an out-of-space failure, got {:?}", other.map(|_| ())),
    }
}
