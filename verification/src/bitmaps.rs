//! In-memory bitmaps: 32-bit-per-pixel images in the byte order the texture
//! expects, converted from the rasterizer's RGBA output.

use vstd::prelude::*;

verus! {

/// Marker for normalized texture-space coordinates.
#[derive(Debug, Clone, Copy, PartialEq, Eq, Structural)]
pub struct TextureUnit;

/// Anything that can hand its pixels to the atlas.
pub trait BitmapImage {
    /// The image's width and height in pixels.
    spec fn spec_dims(&self) -> (nat, nat);

    /// The image's pixel bytes, four per pixel, row-major.
    spec fn spec_data(&self) -> Seq<u8>;

    fn image_dimensions(&self) -> (r: (usize, usize))
        ensures
            r.0 as nat == self.spec_dims().0,
            r.1 as nat == self.spec_dims().1,
    ;

    fn pixels(&self) -> (r: &[u8])
        ensures
            r@ == self.spec_data(),
    ;
}

/// A pixel of `out` converted from `data` by [`Image::with_rgba32`]: the red
/// and blue channels swapped, green and alpha kept.
pub open spec fn spec_bgra_pixel(
    out: Seq<u8>,
    data: Seq<u8>,
    width: int,
    stride: int,
    y: int,
    x: int,
) -> bool {
    let d = (y * width + x) * 4;
    let s = y * stride + x * 4;
    out[d] == data[s + 2] && out[d + 1] == data[s + 1] && out[d + 2] == data[s] && out[d + 3]
        == data[s + 3]
}

/// An owned bitmap, four bytes per pixel.
pub struct Image {
    pub data: Vec<u8>,
    pub width: usize,
    pub height: usize,
}

impl Image {
    /// A zeroed bitmap of the given size.
    pub fn new(width: usize, height: usize) -> (r: Image)
        requires
            width * height * 4 <= usize::MAX,
        ensures
            r.width == width,
            r.height == height,
            r.data@ == Seq::new((width * height * 4) as nat, |i: int| 0u8),
    {
        proof {
            assert(height * width == width * height) by (nonlinear_arith);
        }
        let size = height * width * 4;
        let data = vec![0u8; size];
        Image { data, width, height }
    }

    /// Repacks tightly-or-loosely strided RGBA pixel rows into a tight
    /// bitmap, swapping the red and blue channels.
    pub fn with_rgba32(width: usize, height: usize, stride: usize, data: &[u8]) -> (r: Image)
        requires
            width * height * 4 <= usize::MAX,
            width * 4 <= stride,
            height > 0 ==> (height - 1) * stride + width * 4 <= data@.len(),
        ensures
            r.width == width,
            r.height == height,
            r.data@.len() == width * height * 4,
            forall|y: int, x: int|
                0 <= y < height && 0 <= x < width ==> #[trigger] spec_bgra_pixel(
                    r.data@,
                    data@,
                    width as int,
                    stride as int,
                    y,
                    x,
                ),
    {
        let data_len: usize = data.len();
        let mut image = Image::new(width, height);
        let mut y: usize = 0;
        while y < height
            invariant
                y <= height,
                data@.len() <= usize::MAX,
                width * height * 4 <= usize::MAX,
                width * 4 <= stride,
                height > 0 ==> (height - 1) * stride + width * 4 <= data@.len(),
                image.width == width,
                image.height == height,
                image.data@.len() == width * height * 4,
                forall|yy: int, xx: int|
                    0 <= yy < y && 0 <= xx < width ==> #[trigger] spec_bgra_pixel(
                        image.data@,
                        data@,
                        width as int,
                        stride as int,
                        yy,
                        xx,
                    ),
            decreases height - y,
        {
            proof {
                assert(y * stride <= (height - 1) * stride && y * width <= (height - 1) * width
                    && width * height == height * width && (height - 1) * width + width == height
                    * width) by (nonlinear_arith)
                    requires
                        0 <= y < height && stride >= 0 && width >= 0,
                ;
            }
            let src_offset = y * stride;
            let dest_offset = y * width * 4;
            let mut x: usize = 0;
            while x < width
                invariant
                    x <= width,
                    y < height,
                    data@.len() <= usize::MAX,
                    width * height * 4 <= usize::MAX,
                    width * 4 <= stride,
                    height > 0 ==> (height - 1) * stride + width * 4 <= data@.len(),
                    src_offset == y * stride,
                    dest_offset == y * width * 4,
                    y * stride + width * 4 <= data@.len(),
                    y * width * 4 + width * 4 <= width * height * 4,
                    image.width == width,
                    image.height == height,
                    image.data@.len() == width * height * 4,
                    forall|yy: int, xx: int|
                        0 <= yy < y && 0 <= xx < width ==> #[trigger] spec_bgra_pixel(
                            image.data@,
                            data@,
                            width as int,
                            stride as int,
                            yy,
                            xx,
                        ),
                    forall|xx: int|
                        0 <= xx < x ==> #[trigger] spec_bgra_pixel(
                            image.data@,
                            data@,
                            width as int,
                            stride as int,
                            y as int,
                            xx,
                        ),
                decreases width - x,
            {
                let ghost prev = image.data@;
                let red = data[src_offset + (x * 4)];
                let green = data[src_offset + (x * 4) + 1];
                let blue = data[src_offset + (x * 4) + 2];
                let alpha = data[src_offset + (x * 4) + 3];
                image.data[dest_offset + (x * 4)] = blue;
                image.data[dest_offset + (x * 4) + 1] = green;
                image.data[dest_offset + (x * 4) + 2] = red;
                image.data[dest_offset + (x * 4) + 3] = alpha;
                proof {
                    let w = width as int;
                    let st = stride as int;
                    let yi = y as int;
                    let xi = x as int;
                    let d = (yi * w + xi) * 4;
                    assert(d == dest_offset + xi * 4 && yi * st + xi * 4 == src_offset + xi * 4);
                    assert(spec_bgra_pixel(image.data@, data@, w, st, yi, xi));
                    assert forall|yy: int, xx: int|
                        ((0 <= yy < yi && 0 <= xx < w) || (yy == yi && 0 <= xx
                            < xi)) implies #[trigger] spec_bgra_pixel(
                        image.data@,
                        data@,
                        w,
                        st,
                        yy,
                        xx,
                    ) by {
                        assert((yy * w + xx) * 4 + 3 < (yi * w + xi) * 4) by (nonlinear_arith)
                            requires
                                0 <= yy,
                                0 <= xx < w,
                                yy <= yi,
                                yy < yi || xx < xi,
                                0 <= xi,
                        ;
                        assert(spec_bgra_pixel(prev, data@, w, st, yy, xx));
                    }
                }
                x = x + 1;
            }
            y = y + 1;
        }
        image
    }
}

impl BitmapImage for Image {
    open spec fn spec_dims(&self) -> (nat, nat) {
        (self.width as nat, self.height as nat)
    }

    open spec fn spec_data(&self) -> Seq<u8> {
        self.data@
    }

    fn image_dimensions(&self) -> (r: (usize, usize)) {
        (self.width, self.height)
    }

    fn pixels(&self) -> (r: &[u8]) {
        self.data.as_slice()
    }
}

} // verus!
