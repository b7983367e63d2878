use glyphgrid::atlas::MAX_ATLAS_SIDE;
use glyphgrid::bitmaps::{BitmapImage, Image};
use glyphgrid::ftwrap::{compute_load_flags, ft_result, succeeded, FT_RENDER_MODE_LCD};
use glyphgrid::glyph_atlas::GlyphAtlas;
use glyphgrid::rasterizer::{rgb_bitmap_to_rgba, RasterizedGlyph};
use glyphgrid::shaper::GlyphInfo;
use glyphgrid::strutil::{ascii_lowercase, str_eq};

#[test]
fn with_rgba32_swaps_red_and_blue() {
    // One 2x1 image: pixels (r,g,b,a) = (1,2,3,4) and (5,6,7,8).
    let data = [1u8, 2, 3, 4, 5, 6, 7, 8];
    let im = Image::with_rgba32(2, 1, 8, &data);
    assert_eq!(im.image_dimensions(), (2, 1));
    assert_eq!(im.pixels(), &[3, 2, 1, 4, 7, 6, 5, 8]);
}

#[test]
fn with_rgba32_honours_stride() {
    // Row stride 12 with only 2 meaningful pixels of 4 bytes each.
    let mut data = vec![0u8; 24];
    data[12..20].copy_from_slice(&[9, 8, 7, 6, 5, 4, 3, 2]);
    let im = Image::with_rgba32(2, 2, 12, &data);
    let px = im.pixels();
    assert_eq!(&px[8..16], &[7, 8, 9, 6, 3, 4, 5, 2]);
}

#[test]
fn rgb_bitmap_alpha_is_channel_minimum() {
    let data = [10u8, 30, 20, 50, 40, 60];
    let rgba = rgb_bitmap_to_rgba(2, 1, 6, &data);
    assert_eq!(rgba, vec![10, 30, 20, 10, 50, 40, 60, 40]);
}

#[test]
fn glyph_atlas_packs_and_carries_placement() {
    let mut ga = GlyphAtlas::new(64);
    let glyph = RasterizedGlyph {
        data: vec![0x11u8; 10 * 10 * 4],
        height: 10,
        width: 10,
        top: 9,
        left: 2,
        has_color: false,
    };
    let info = GlyphInfo {
        font_idx: 0,
        glyph_pos: 1,
        cluster: 0,
        num_cells: 1,
        x_advance: 640,
        y_advance: 0,
        x_offset: 5,
        y_offset: 6,
    };
    let tex = ga.load_glyph(&glyph, &info).expect("fits");
    assert_eq!(tex.texture.rect.width, 10);
    assert_eq!(tex.texture.rect.height, 10);
    assert_eq!((tex.bearing_x, tex.bearing_y), (2, 9));
    assert_eq!((tex.x_offset, tex.y_offset), (5, 6));
    assert!(MAX_ATLAS_SIDE >= 64);
}

#[test]
fn freetype_helpers_compute_exact_values() {
    assert!(succeeded(0));
    assert!(!succeeded(35));
    assert_eq!(ft_result(0, 7u32), Ok(7u32));
    assert!(ft_result(5, 7u32).is_err());
    let (flags, mode) = compute_load_flags();
    assert_eq!(mode, FT_RENDER_MODE_LCD);
    assert_eq!(flags, (FT_RENDER_MODE_LCD & (15u32 << 16)) as i32);
    assert_eq!(flags, 0);
}

#[test]
fn string_helpers() {
    assert_eq!(ascii_lowercase("AbC-Ü"), "abc-Ü");
    assert!(str_eq("day", "day"));
    assert!(!str_eq("day", "dab"));
    assert!(!str_eq("day", "days"));
}
