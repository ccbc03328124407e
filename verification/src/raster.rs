//! The order in which the pixels of an image are written.

use vstd::prelude::*;

verus! {

/// A pixel: its column, from the left, and its row, from the bottom.
#[derive(Clone, Copy, Debug, PartialEq, Eq, Structural)]
pub struct Pixel {
    pub x: u32,
    pub y: u32,
}

/// An image's size in pixels.
#[derive(Clone, Copy, Debug, PartialEq, Eq, Structural)]
pub struct Raster {
    pub width: u32,
    pub height: u32,
}

impl Raster {
    /// How many pixels the image has.
    pub open spec fn count(self) -> nat {
        (self.width * self.height) as nat
    }

    /// The pixel written as number `i`, counting from 0: rows from the top
    /// down, each row from the left.
    pub open spec fn at(self, i: nat) -> Pixel
        recommends
            i < self.count(),
    {
        Pixel {
            x: (i % (self.width as nat)) as u32,
            y: (self.height - 1 - i / (self.width as nat)) as u32,
        }
    }

    /// Whether the pixel lies in the image.
    pub open spec fn has(self, p: Pixel) -> bool {
        p.x < self.width && p.y < self.height
    }

    /// The place of a pixel of the image in the order of writing.
    pub open spec fn index(self, p: Pixel) -> nat
        recommends
            self.has(p),
    {
        ((self.height - 1 - p.y) * self.width + p.x) as nat
    }

    /// The pixel written after `p`: the one with the next index. Nothing
    /// comes after the last pixel, nor after a pixel outside the image.
    pub open spec fn next(self, p: Pixel) -> Option<Pixel> {
        if self.has(p) && self.index(p) + 1 < self.count() {
            Some(self.at(self.index(p) + 1))
        } else {
            None
        }
    }

    pub fn new(width: u32, height: u32) -> (r: Raster)
        ensures
            r.width == width,
            r.height == height,
    {
        Raster { width, height }
    }

    /// How many pixels the image has.
    pub fn pixel_count(&self) -> (r: u64)
        ensures
            r == self.count(),
    {
        assert(self.width * self.height <= 0xFFFF_FFFF * 0xFFFF_FFFF) by (nonlinear_arith)
            requires
                self.width <= 0xFFFF_FFFF,
                self.height <= 0xFFFF_FFFF,
        ;
        (self.width as u64) * (self.height as u64)
    }

    /// The pixel written first: the top row's leftmost. An image without
    /// pixels has none.
    pub fn first(&self) -> (r: Option<Pixel>)
        ensures
            r == if self.count() > 0 {
                Some(self.at(0))
            } else {
                None
            },
    {
        if self.width == 0 || self.height == 0 {
            proof {
                assert(self.width * self.height == 0) by (nonlinear_arith)
                    requires
                        self.width == 0 || self.height == 0,
                ;
            }
            None
        } else {
            proof {
                assert(self.width * self.height > 0) by (nonlinear_arith)
                    requires
                        self.width > 0,
                        self.height > 0,
                ;
            }
            Some(Pixel { x: 0, y: self.height - 1 })
        }
    }

    /// The pixel written after `p`: the next to the right, or the leftmost
    /// of the row below. Nothing comes after the bottom row's rightmost, nor
    /// after a pixel outside the image.
    pub fn after(&self, p: Pixel) -> (r: Option<Pixel>)
        ensures
            r == self.next(p),
    {
        if p.x >= self.width || p.y >= self.height {
            return None;
        }
        proof {
            lemma_index_at(*self, p);
            lemma_last_index(*self, p);
        }
        if p.x + 1 < self.width {
            proof {
                lemma_at_index(*self, Pixel { x: (p.x + 1) as u32, y: p.y });
            }
            Some(Pixel { x: p.x + 1, y: p.y })
        } else if p.y > 0 {
            proof {
                lemma_at_index(*self, Pixel { x: 0, y: (p.y - 1) as u32 });
                assert((self.height - 1 - (p.y - 1)) * self.width == (self.height - 1 - p.y)
                    * self.width + self.width) by (nonlinear_arith);
            }
            Some(Pixel { x: 0, y: p.y - 1 })
        } else {
            None
        }
    }
}

/// A pixel of the image stands at its own index in the order of writing.
pub proof fn lemma_at_index(r: Raster, p: Pixel)
    requires
        r.has(p),
    ensures
        r.index(p) < r.count(),
        r.at(r.index(p)) == p,
{
    let w = r.width as int;
    let row = r.height - 1 - p.y;
    assert(row * w + p.x < r.height * w) by (nonlinear_arith)
        requires
            0 <= row <= r.height - 1,
            0 <= p.x < w,
    ;
    assert(r.width * r.height == r.height * w) by (nonlinear_arith)
        requires
            w == r.width,
    ;
    vstd::arithmetic::div_mod::lemma_fundamental_div_mod_converse(row * w + p.x, w, row, p.x as int);
}

/// The index of a pixel of the image, written out: the rows above it, and
/// the pixels to its left.
proof fn lemma_index_at(r: Raster, p: Pixel)
    requires
        r.has(p),
    ensures
        r.index(p) == (r.height - 1 - p.y) * r.width + p.x,
        0 <= (r.height - 1 - p.y) * r.width + p.x,
{
    assert(0 <= (r.height - 1 - p.y) * r.width) by (nonlinear_arith)
        requires
            0 <= r.height - 1 - p.y,
            0 <= r.width,
    ;
}

/// The last pixel in the order of writing is the bottom row's rightmost.
pub proof fn lemma_last_index(r: Raster, p: Pixel)
    requires
        r.has(p),
    ensures
        r.index(p) + 1 < r.count() <==> !(p.x + 1 == r.width && p.y == 0),
{
    let w = r.width as int;
    let row = r.height - 1 - p.y;
    lemma_index_at(r, p);
    assert(r.width * r.height == (r.height - 1) * w + w) by (nonlinear_arith)
        requires
            w == r.width,
    ;
    if p.y > 0 {
        assert(row * w + w <= (r.height - 1) * w) by (nonlinear_arith)
            requires
                0 <= row <= r.height - 2,
                0 <= w,
        ;
    }
}

/// The pixel written as number `i` lies in the image, and its index is `i`.
/// So `first` and `after` walk the image in the order of writing: `after`
/// leads from number `i` to number `i + 1`, and from the last to none.
pub proof fn lemma_index_of_at(r: Raster, i: nat)
    requires
        i < r.count(),
    ensures
        r.has(r.at(i)),
        r.index(r.at(i)) == i,
        r.next(r.at(i)) == if i + 1 < r.count() {
            Some(r.at(i + 1))
        } else {
            None
        },
{
    let w = r.width as int;
    assert(w > 0 && r.height > 0) by (nonlinear_arith)
        requires
            i < r.width * r.height,
            w == r.width,
            0 <= i,
    ;
    vstd::arithmetic::div_mod::lemma_fundamental_div_mod(i as int, w);
    vstd::arithmetic::div_mod::lemma_mod_bound(i as int, w);
    vstd::arithmetic::div_mod::lemma_div_pos_is_pos(i as int, w);
    let q = (i as int) / w;
    assert(q < r.height) by (nonlinear_arith)
        requires
            i < r.width * r.height,
            w == r.width,
            w > 0,
            i >= w * q,
    ;
    assert((r.height - 1 - (r.height - 1 - q)) * w == w * q) by (nonlinear_arith);
}

} // verus!
