//! Pixel-space geometry: plain integer value types consumed by the atlas and
//! the glyph cache.

use vstd::prelude::*;

verus! {

/// Marker for pixel-space coordinates.
#[derive(Debug, Clone, Copy, PartialEq, Eq, Structural)]
pub struct PixelUnit;

/// An axis-aligned pixel rectangle: origin plus size.
#[derive(Debug, Clone, Copy, PartialEq, Eq, Structural)]
pub struct Rect {
    pub x: usize,
    pub y: usize,
    pub width: usize,
    pub height: usize,
}

/// Two rectangles share no pixel.
pub open spec fn spec_disjoint(a: Rect, b: Rect) -> bool {
    a.x + a.width <= b.x || b.x + b.width <= a.x || a.y + a.height <= b.y || b.y + b.height <= a.y
}

impl Rect {
    pub fn new(x: usize, y: usize, width: usize, height: usize) -> (r: Rect)
        ensures
            r == (Rect { x, y, width, height }),
    {
        Rect { x, y, width, height }
    }
}

} // verus!
