//! Rasterization: the opaque backend contract that turns a glyph identifier
//! into a bitmap, and the verified pixel conversion from the backend's
//! subpixel rows to the RGBA layout the cache stores.

use crate::shaper::BackendError;
use vstd::prelude::*;

verus! {

/// A rasterized glyph: its bitmap (four bytes per pixel), its size, its
/// bearings in whole pixels, and whether it is a pre-colored (emoji)
/// bitmap rather than a mask to be tinted.
#[derive(Debug, Clone)]
pub struct RasterizedGlyph {
    pub data: Vec<u8>,
    pub height: usize,
    pub width: usize,
    pub top: i64,
    pub left: i64,
    pub has_color: bool,
}

/// A rasterizing backend: external, stateful, and opaque — nothing is
/// promised of the bitmap it returns, and a failure is passed through to
/// the caller.
pub trait FontRasterizer {
    fn rasterize(&mut self, glyph_pos: u32) -> Result<RasterizedGlyph, BackendError>;
}

/// A pixel of `out` converted from a subpixel row of `data`: the three
/// channels copied, the alpha their minimum.
pub open spec fn spec_rgba_from_rgb_pixel(
    out: Seq<u8>,
    data: Seq<u8>,
    width: int,
    pitch: int,
    y: int,
    x: int,
) -> bool {
    let d = (y * width + x) * 4;
    let s = y * pitch + x * 3;
    out[d] == data[s] && out[d + 1] == data[s + 1] && out[d + 2] == data[s + 2] && out[d + 3] == (
    if data[s] <= data[s + 1] && data[s] <= data[s + 2] {
        data[s]
    } else if data[s + 1] <= data[s + 2] {
        data[s + 1]
    } else {
        data[s + 2]
    })
}

/// Repacks a subpixel (three bytes per pixel) bitmap with row pitch
/// `pitch` into tight RGBA rows, the alpha of each pixel being the
/// smallest of its three channels.
pub fn rgb_bitmap_to_rgba(width: usize, height: usize, pitch: usize, data: &[u8]) -> (r: Vec<u8>)
    requires
        width * height * 4 <= usize::MAX,
        width * 3 <= pitch,
        height > 0 ==> (height - 1) * pitch + width * 3 <= data@.len(),
    ensures
        r@.len() == width * height * 4,
        forall|y: int, x: int|
            0 <= y < height && 0 <= x < width ==> #[trigger] spec_rgba_from_rgb_pixel(
                r@,
                data@,
                width as int,
                pitch as int,
                y,
                x,
            ),
{
    let data_len: usize = data.len();
    proof {
        assert(height * width * 4 == width * height * 4) by (nonlinear_arith);
    }
    let size = height * width * 4;
    let mut rgba: Vec<u8> = vec![0u8; size];
    let mut y: usize = 0;
    while y < height
        invariant
            y <= height,
            data@.len() <= usize::MAX,
            width * height * 4 <= usize::MAX,
            width * 3 <= pitch,
            height > 0 ==> (height - 1) * pitch + width * 3 <= data@.len(),
            rgba@.len() == width * height * 4,
            forall|yy: int, xx: int|
                0 <= yy < y && 0 <= xx < width ==> #[trigger] spec_rgba_from_rgb_pixel(
                    rgba@,
                    data@,
                    width as int,
                    pitch as int,
                    yy,
                    xx,
                ),
        decreases height - y,
    {
        proof {
            assert(y * pitch <= (height - 1) * pitch && y * width <= (height - 1) * width && width
                * height == height * width && (height - 1) * width + width == height * width) by (nonlinear_arith)
                requires
                    0 <= y < height && pitch >= 0 && width >= 0,
            ;
        }
        let src_offset = y * pitch;
        let dest_offset = y * width * 4;
        let mut x: usize = 0;
        while x < width
            invariant
                x <= width,
                y < height,
                data@.len() <= usize::MAX,
                width * height * 4 <= usize::MAX,
                width * 3 <= pitch,
                height > 0 ==> (height - 1) * pitch + width * 3 <= data@.len(),
                src_offset == y * pitch,
                dest_offset == y * width * 4,
                y * pitch + width * 3 <= data@.len(),
                y * width * 4 + width * 4 <= width * height * 4,
                rgba@.len() == width * height * 4,
                forall|yy: int, xx: int|
                    0 <= yy < y && 0 <= xx < width ==> #[trigger] spec_rgba_from_rgb_pixel(
                        rgba@,
                        data@,
                        width as int,
                        pitch as int,
                        yy,
                        xx,
                    ),
                forall|xx: int|
                    0 <= xx < x ==> #[trigger] spec_rgba_from_rgb_pixel(
                        rgba@,
                        data@,
                        width as int,
                        pitch as int,
                        y as int,
                        xx,
                    ),
            decreases width - x,
        {
            let ghost prev = rgba@;
            let red = data[src_offset + (x * 3)];
            let green = data[src_offset + (x * 3) + 1];
            let blue = data[src_offset + (x * 3) + 2];
            let alpha = if red <= green && red <= blue {
                red
            } else if green <= blue {
                green
            } else {
                blue
            };
            rgba[dest_offset + (x * 4)] = red;
            rgba[dest_offset + (x * 4) + 1] = green;
            rgba[dest_offset + (x * 4) + 2] = blue;
            rgba[dest_offset + (x * 4) + 3] = alpha;
            proof {
                let w = width as int;
                let pt = pitch as int;
                let yi = y as int;
                let xi = x as int;
                assert((yi * w + xi) * 4 == dest_offset + xi * 4 && yi * pt + xi * 3 == src_offset
                    + xi * 3);
                assert(spec_rgba_from_rgb_pixel(rgba@, data@, w, pt, yi, xi));
                assert forall|yy: int, xx: int|
                    ((0 <= yy < yi && 0 <= xx < w) || (yy == yi && 0 <= xx
                        < xi)) implies #[trigger] spec_rgba_from_rgb_pixel(
                    rgba@,
                    data@,
                    w,
                    pt,
                    yy,
                    xx,
                ) by {
                    assert((yy * w + xx) * 4 + 3 < (yi * w + xi) * 4) by (nonlinear_arith)
                        requires
                            0 <= yy,
                            0 <= xx < w,
                            yy <= yi,
                            yy < yi || xx < xi,
                            0 <= xi,
                    ;
                    assert(spec_rgba_from_rgb_pixel(prev, data@, w, pt, yy, xx));
                }
            }
            x = x + 1;
        }
        y = y + 1;
    }
    rgba
}

} // verus!
