//! A shelf-packing allocator over one square texture surface.
//!
//! The atlas hands out non-overlapping pixel rectangles, each padded by a
//! one-pixel border so neighbouring glyphs cannot bleed into each other when
//! the texture is sampled with filtering. Allocations are never freed or
//! moved; reclaiming space means replacing the whole atlas.

use crate::bitmaps::Image;
use crate::utils::{spec_disjoint, Rect};
use vstd::prelude::*;

verus! {

/// Largest atlas side this library accepts; keeps every size computation,
/// including the power-of-two size hints, inside `usize`.
pub const MAX_ATLAS_SIDE: usize = 0x4000;

/// The atlas is full: the caller may allocate a replacement atlas of at
/// least `size` pixels per side and re-pack every live sprite into it.
#[derive(Debug, Clone, Copy, PartialEq, Eq, Structural)]
pub struct OutOfTextureSpace {
    pub size: usize,
}

/// A rectangle of the atlas texture that one bitmap was written into.
#[derive(Debug, Clone, Copy, PartialEq, Eq, Structural)]
pub struct Sprite {
    pub rect: Rect,
}

/// The smallest power of two that is at least `n` (and at least `acc`),
/// accumulated from `acc`.
pub open spec fn spec_next_pow2_from(acc: int, n: int) -> int
    decreases (if acc < n {
        n - acc
    } else {
        0
    }),
    when acc >= 1
{
    if acc >= n {
        acc
    } else {
        spec_next_pow2_from(acc * 2, n)
    }
}

/// The smallest power of two that is at least `n`, and at least 1.
pub open spec fn spec_next_pow2(n: int) -> int {
    spec_next_pow2_from(1, n)
}

/// The smallest power of two that is at least `n`.
pub fn next_power_of_two(n: usize) -> (r: usize)
    requires
        n <= 0x4000_0000,
    ensures
        r == spec_next_pow2(n as int),
        r >= n,
        r >= 1,
    decreases n,
{
    let mut r: usize = 1;
    while r < n
        invariant
            1 <= r,
            r <= 0x8000_0000,
            n <= 0x4000_0000,
            spec_next_pow2(n as int) == spec_next_pow2_from(r as int, n as int),
        decreases (if r < n {
            n - r
        } else {
            0
        }),
    {
        r = r * 2;
    }
    r
}

/// The one-pixel-expanded reservation of `r` lies inside a square of the
/// given side.
pub open spec fn spec_reserved_within(r: Rect, side: int) -> bool {
    1 <= r.x && 1 <= r.y && r.x + r.width + 1 <= side && r.y + r.height + 1 <= side
}

/// Even the one-pixel-expanded reservations of `a` and `b` share no pixel.
pub open spec fn spec_reserved_disjoint(a: Rect, b: Rect) -> bool {
    a.x + a.width + 1 <= b.x - 1 || b.x + b.width + 1 <= a.x - 1 || a.y + a.height + 1 <= b.y - 1
        || b.y + b.height + 1 <= a.y - 1
}

/// The reservation of `r` is accounted for by the packing cursor: it lies
/// either fully below the current shelf, or inside the used part of the
/// current shelf.
pub open spec fn spec_in_shelves(r: Rect, bottom: int, left: int, tallest: int) -> bool {
    r.y + r.height + 1 <= bottom || (r.y - 1 == bottom && r.x + r.width + 1 <= left && r.height + 2
        <= tallest)
}

/// A shelf-packing allocator over one square texture of fixed side length.
pub struct Atlas {
    side: usize,
    bottom: usize,
    tallest: usize,
    left: usize,
    rects: Ghost<Seq<Rect>>,
}

impl Atlas {
    /// The texture's side length in pixels.
    pub closed spec fn spec_side(&self) -> int {
        self.side as int
    }

    /// Every rectangle handed out so far, oldest first.
    pub closed spec fn spec_rects(&self) -> Seq<Rect> {
        self.rects@
    }

    pub closed spec fn spec_bottom(&self) -> int {
        self.bottom as int
    }

    pub closed spec fn spec_left(&self) -> int {
        self.left as int
    }

    pub closed spec fn spec_tallest(&self) -> int {
        self.tallest as int
    }

    /// The atlas invariant: the cursor stays inside the square, every
    /// reservation lies inside the square and is accounted for by the
    /// cursor, and all reservations are pairwise disjoint.
    pub closed spec fn wf(&self) -> bool {
        &&& self.side <= MAX_ATLAS_SIDE
        &&& self.left <= self.side
        &&& self.bottom + self.tallest <= self.side
        &&& forall|i: int|
            0 <= i < self.rects@.len() ==> spec_reserved_within(
                #[trigger] self.rects@[i],
                self.side as int,
            ) && spec_in_shelves(
                self.rects@[i],
                self.bottom as int,
                self.left as int,
                self.tallest as int,
            )
        &&& forall|i: int, j: int|
            0 <= i < j < self.rects@.len() ==> spec_reserved_disjoint(
                #[trigger] self.rects@[i],
                #[trigger] self.rects@[j],
            )
    }

    /// Whether a bitmap of the given size, once padded by its one-pixel
    /// border, fits: in the current shelf, or in a fresh shelf above it.
    pub open spec fn spec_alloc_fits(&self, w: int, h: int) -> bool {
        let side = self.spec_side();
        let rw = w + 2;
        let rh = h + 2;
        rw <= side && rh <= side && {
            let b2 = if side - self.spec_left() < rw {
                self.spec_bottom() + self.spec_tallest()
            } else {
                self.spec_bottom()
            };
            side - b2 >= rh
        }
    }

    /// The replacement-size hint reported when the bitmap does not fit.
    pub open spec fn spec_alloc_err_size(&self, w: int, h: int) -> int {
        let side = self.spec_side();
        let rw = w + 2;
        let rh = h + 2;
        let max_r = if rw >= rh {
            rw
        } else {
            rh
        };
        if rw > side || rh > side {
            spec_next_pow2(max_r)
        } else {
            spec_next_pow2(side + max_r)
        }
    }

    /// A fresh atlas over a square texture of the given side length.
    pub fn new(side: usize) -> (r: Atlas)
        requires
            side <= MAX_ATLAS_SIDE,
        ensures
            r.wf(),
            r.spec_side() == side,
            r.spec_rects() == Seq::<Rect>::empty(),
    {
        Atlas { side, bottom: 0, tallest: 0, left: 0, rects: Ghost(Seq::empty()) }
    }

    /// The side length in pixels; texture coordinates are pixel coordinates
    /// divided by this value.
    pub fn side(&self) -> (r: usize)
        ensures
            r == self.spec_side(),
    {
        self.side
    }

    /// Reserves space for a bitmap of `im`'s size plus a one-pixel border.
    ///
    /// Succeeds exactly when the padded bitmap fits in the current shelf or
    /// in a fresh shelf above it; the returned rectangle excludes the
    /// border. When even an empty atlas could never hold the bitmap, or the
    /// remaining height is too small, it fails with a power-of-two size
    /// suggestion for a replacement atlas.
    pub fn allocate(&mut self, im: &Image) -> (r: Result<Sprite, OutOfTextureSpace>)
        requires
            old(self).wf(),
            im.width + 2 <= MAX_ATLAS_SIDE,
            im.height + 2 <= MAX_ATLAS_SIDE,
        ensures
            final(self).wf(),
            final(self).spec_side() == old(self).spec_side(),
            r is Ok <==> old(self).spec_alloc_fits(im.width as int, im.height as int),
            r matches Err(e) ==> e == (OutOfTextureSpace {
                size: old(self).spec_alloc_err_size(im.width as int, im.height as int) as usize,
            }),
            ({
                let side = old(self).spec_side();
                let rw = im.width + 2;
                let rh = im.height + 2;
                let max_r = if rw >= rh { rw as int } else { rh as int };
                if rw > side || rh > side {
                    // This bitmap can never fit, whatever the packing state.
                    &&& r == Err::<Sprite, OutOfTextureSpace>(
                        OutOfTextureSpace { size: spec_next_pow2(max_r) as usize },
                    )
                    &&& *final(self) == *old(self)
                } else {
                    // Advance to a new shelf when the current one is too full.
                    let advance = side - old(self).spec_left() < rw;
                    let b2 = if advance {
                        old(self).spec_bottom() + old(self).spec_tallest()
                    } else {
                        old(self).spec_bottom()
                    };
                    let l2 = if advance {
                        0
                    } else {
                        old(self).spec_left()
                    };
                    let t2 = if advance {
                        0
                    } else {
                        old(self).spec_tallest()
                    };
                    if side - b2 < rh {
                        &&& r == Err::<Sprite, OutOfTextureSpace>(
                            OutOfTextureSpace { size: spec_next_pow2(side + max_r) as usize },
                        )
                        &&& final(self).spec_rects() == old(self).spec_rects()
                        &&& final(self).spec_bottom() == b2
                        &&& final(self).spec_left() == l2
                        &&& final(self).spec_tallest() == t2
                    } else {
                        let rect = Rect {
                            x: (l2 + 1) as usize,
                            y: (b2 + 1) as usize,
                            width: im.width,
                            height: im.height,
                        };
                        &&& r == Ok::<Sprite, OutOfTextureSpace>(Sprite { rect })
                        &&& final(self).spec_rects() == old(self).spec_rects().push(rect)
                        &&& final(self).spec_bottom() == b2
                        &&& final(self).spec_left() == l2 + rw
                        &&& final(self).spec_tallest() == (if t2 >= rh {
                            t2
                        } else {
                            rh as int
                        })
                    }
                }
            }),
    {
        let width = im.width;
        let height = im.height;
        let reserve_width = width + 2;
        let reserve_height = height + 2;
        let max_reserve = if reserve_width >= reserve_height {
            reserve_width
        } else {
            reserve_height
        };

        if reserve_width > self.side || reserve_height > self.side {
            return Err(OutOfTextureSpace { size: next_power_of_two(max_reserve) });
        }
        let x_left = self.side - self.left;
        if x_left < reserve_width {
            self.bottom = self.bottom + self.tallest;
            self.left = 0;
            self.tallest = 0;
        }

        let y_left = self.side - self.bottom;
        if y_left < reserve_height {
            return Err(OutOfTextureSpace { size: next_power_of_two(self.side + max_reserve) });
        }

        let rect = Rect { x: self.left + 1, y: self.bottom + 1, width, height };

        proof {
            let ghost new_rects = self.rects@.push(rect);
            assert forall|i: int| 0 <= i < self.rects@.len() implies spec_reserved_disjoint(
                #[trigger] self.rects@[i],
                rect,
            ) by {
                assert(spec_in_shelves(
                    self.rects@[i],
                    self.bottom as int,
                    self.left as int,
                    self.tallest as int,
                ));
            }
        }

        self.left = self.left + reserve_width;
        self.tallest = if self.tallest >= reserve_height {
            self.tallest
        } else {
            reserve_height
        };
        self.rects = Ghost(self.rects@.push(rect));

        Ok(Sprite { rect })
    }

    /// No two rectangles the atlas has handed out overlap: the heart of the
    /// packing invariant, stated over the sprites themselves.
    pub proof fn lemma_allocations_disjoint(&self)
        requires
            self.wf(),
        ensures
            forall|i: int, j: int|
                0 <= i < j < self.spec_rects().len() ==> spec_disjoint(
                    #[trigger] self.spec_rects()[i],
                    #[trigger] self.spec_rects()[j],
                ),
    {
    }
}

} // verus!
