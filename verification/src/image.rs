//! An in-memory RGBA pixel buffer with integer points and rectangles.

use vstd::prelude::*;

verus! {

/// R, G, B, A = 4 bytes.
pub const BYTES_PER_PIXEL: usize = 4;

/// A pixel coordinate. Components are `usize` because there should
/// not be negative indices into an image.
#[derive(Debug, Clone, Copy, PartialEq, Eq, Structural)]
pub struct ImgPoint {
    pub x: usize,
    pub y: usize,
}

impl ImgPoint {
    pub fn new() -> (r: ImgPoint)
        ensures
            r.x == 0 && r.y == 0,
    {
        ImgPoint { x: 0, y: 0 }
    }

    pub fn from_xy(x: usize, y: usize) -> (r: ImgPoint)
        ensures
            r.x == x && r.y == y,
    {
        ImgPoint { x, y }
    }

    pub fn from_point(p: &ImgPoint) -> (r: ImgPoint)
        ensures
            r == *p,
    {
        ImgPoint { x: p.x, y: p.y }
    }

    pub fn set_xy(&mut self, x: usize, y: usize)
        ensures
            final(self).x == x && final(self).y == y,
    {
        self.x = x;
        self.y = y;
    }

    pub fn set_point(&mut self, p: &ImgPoint)
        ensures
            *final(self) == *p,
    {
        self.x = p.x;
        self.y = p.y;
    }
}

/// An axis-aligned pixel rectangle, min inclusive, max exclusive.
#[derive(Debug, Clone, Copy, PartialEq, Eq, Structural)]
pub struct ImgRectangle {
    pub min: ImgPoint,
    pub max: ImgPoint,
}

impl ImgRectangle {
    pub fn new() -> (r: ImgRectangle)
        ensures
            r.min.x == 0 && r.min.y == 0 && r.max.x == 1 && r.max.y == 1,
    {
        ImgRectangle { min: ImgPoint { x: 0, y: 0 }, max: ImgPoint { x: 1, y: 1 } }
    }

    pub fn from_size(w: usize, h: usize) -> (r: ImgRectangle)
        ensures
            r.min.x == 0 && r.min.y == 0 && r.max.x == w && r.max.y == h,
    {
        ImgRectangle { min: ImgPoint { x: 0, y: 0 }, max: ImgPoint { x: w, y: h } }
    }

    /// The sum of the two side lengths.
    pub fn size(&self) -> (r: usize)
        requires
            self.min.x <= self.max.x,
            self.min.y <= self.max.y,
            self.max.x - self.min.x + self.max.y - self.min.y <= usize::MAX,
        ensures
            r == self.max.x - self.min.x + self.max.y - self.min.y,
    {
        self.w() + self.h()
    }

    pub fn w(&self) -> (r: usize)
        requires
            self.min.x <= self.max.x,
        ensures
            r == self.max.x - self.min.x,
    {
        self.max.x - self.min.x
    }

    pub fn h(&self) -> (r: usize)
        requires
            self.min.y <= self.max.y,
        ensures
            r == self.max.y - self.min.y,
    {
        self.max.y - self.min.y
    }

    pub fn set_min_max(&mut self, min: &ImgPoint, max: &ImgPoint)
        ensures
            final(self).min == *min && final(self).max == *max,
    {
        self.min.set_point(min);
        self.max.set_point(max);
    }

    /// Whether a point lies inside the rectangle.
    pub open spec fn spec_inside(self, x: int, y: int) -> bool {
        self.min.x <= x < self.max.x && self.min.y <= y < self.max.y
    }

    pub fn point_inside(&self, p: &ImgPoint) -> (r: bool)
        ensures
            r == self.spec_inside(p.x as int, p.y as int),
    {
        self.xy_inside(p.x, p.y)
    }

    pub fn xy_inside(&self, x: usize, y: usize) -> (r: bool)
        ensures
            r == self.spec_inside(x as int, y as int),
    {
        self.min.x <= x && x < self.max.x && self.min.y <= y && y < self.max.y
    }
}

/// An in-memory image whose `at` method returns RGBA values.
pub struct RGBA {
    /// The image's pixels, in R, G, B, A order. The pixel at (x, y)
    /// starts at `pix[(y - rect.min.y) * stride + (x - rect.min.x) * 4]`.
    pub pix: Vec<u8>,
    /// The stride (in bytes) between vertically adjacent pixels.
    pub stride: usize,
    /// The image's bounds.
    pub rect: ImgRectangle,
}

impl RGBA {
    /// The buffer is consistent with the bounds and the stride.
    pub open spec fn wf(self) -> bool {
        &&& self.rect.min.x <= self.rect.max.x
        &&& self.rect.min.y <= self.rect.max.y
        &&& self.stride == BYTES_PER_PIXEL * (self.rect.max.x - self.rect.min.x)
        &&& self.pix@.len() == self.stride * (self.rect.max.y - self.rect.min.y)
    }

    /// The byte offset of the pixel at (x, y).
    pub open spec fn spec_pix_offset(self, x: int, y: int) -> int {
        (y - self.rect.min.y) * self.stride + (x - self.rect.min.x) * BYTES_PER_PIXEL
    }

    /// For coordinates inside the bounds, the four bytes of the pixel
    /// lie inside the buffer.
    proof fn lemma_offset_in_bounds(self, x: int, y: int)
        requires
            self.wf(),
            self.rect.spec_inside(x, y),
        ensures
            0 <= self.spec_pix_offset(x, y),
            self.spec_pix_offset(x, y) + 4 <= self.pix@.len(),
            0 <= (y - self.rect.min.y) * self.stride <= self.spec_pix_offset(x, y),
    {
        let w = self.rect.max.x - self.rect.min.x;
        let h = self.rect.max.y - self.rect.min.y;
        let dx = x - self.rect.min.x;
        let dy = y - self.rect.min.y;
        assert(dy * self.stride + dx * 4 + 4 <= self.stride * h) by (nonlinear_arith)
            requires
                0 <= dx < w,
                0 <= dy < h,
                self.stride == 4 * w,
        ;
        assert(dy * self.stride + dx * 4 >= 0) by (nonlinear_arith)
            requires
                0 <= dx,
                0 <= dy,
                self.stride >= 0,
        ;
    }

    pub fn new(w: usize, h: usize) -> (r: RGBA)
        requires
            4 * w * h <= usize::MAX,
            4 * w <= usize::MAX,
        ensures
            r.wf(),
            r.rect.min.x == 0 && r.rect.min.y == 0,
            r.rect.max.x == w && r.rect.max.y == h,
            r.stride == 4 * w,
            r.pix@.len() == 4 * w * h,
            forall|i: int| 0 <= i < r.pix@.len() ==> r.pix@[i] == 0u8,
    {
        let n: usize = BYTES_PER_PIXEL * w * h;
        let mut buf: Vec<u8> = Vec::new();
        let mut i: usize = 0;
        while i < n
            invariant
                i <= n,
                buf@.len() == i,
                forall|j: int| 0 <= j < i ==> buf@[j] == 0u8,
            decreases n - i,
        {
            buf.push(0u8);
            i = i + 1;
        }
        proof {
            assert(4 * w * h == (4 * w) * h) by (nonlinear_arith);
        }
        RGBA { pix: buf, stride: BYTES_PER_PIXEL * w, rect: ImgRectangle::from_size(w, h) }
    }

    pub fn with_rectangle(r: ImgRectangle) -> (img: RGBA)
        requires
            r.min.x <= r.max.x,
            r.min.y <= r.max.y,
            4 * (r.max.x - r.min.x) * (r.max.y - r.min.y) <= usize::MAX,
            4 * (r.max.x - r.min.x) <= usize::MAX,
        ensures
            img.wf(),
            img.rect.min.x == 0 && img.rect.min.y == 0,
            img.rect.max.x == r.max.x - r.min.x,
            img.rect.max.y == r.max.y - r.min.y,
            img.stride == 4 * (r.max.x - r.min.x),
            img.pix@.len() == 4 * (r.max.x - r.min.x) * (r.max.y - r.min.y),
            forall|i: int| 0 <= i < img.pix@.len() ==> img.pix@[i] == 0u8,
    {
        RGBA::new(r.w(), r.h())
    }

    pub fn buf(&mut self) -> (r: &mut Vec<u8>)
        ensures
            *r == old(self).pix,
            *final(self) == (RGBA { pix: *final(r), ..*old(self) }),
    {
        &mut self.pix
    }

    pub fn size(&mut self) -> (r: usize)
        ensures
            r == old(self).pix@.len(),
            *final(self) == *old(self),
    {
        self.buf().len()
    }

    pub fn bounds(&self) -> (r: &ImgRectangle)
        ensures
            *r == self.rect,
    {
        &self.rect
    }

    /// The index of the first byte of the pixel at (x, y).
    #[inline(always)]
    pub fn pix_offset(&self, x: usize, y: usize) -> (r: usize)
        requires
            self.wf(),
            self.rect.spec_inside(x as int, y as int),
        ensures
            r == self.spec_pix_offset(x as int, y as int),
            r + 4 <= self.pix@.len(),
    {
        let n = self.pix.len();
        proof {
            self.lemma_offset_in_bounds(x as int, y as int);
        }
        (y - self.rect.min.y) * self.stride + (x - self.rect.min.x) * BYTES_PER_PIXEL
    }

    /// The RGBA bytes of the pixel at (x, y); zero outside the bounds.
    pub fn at(&self, x: usize, y: usize) -> (r: [u8; 4])
        requires
            self.wf(),
        ensures
            self.rect.spec_inside(x as int, y as int) ==> r@ == seq![
                self.pix@[self.spec_pix_offset(x as int, y as int)],
                self.pix@[self.spec_pix_offset(x as int, y as int) + 1],
                self.pix@[self.spec_pix_offset(x as int, y as int) + 2],
                self.pix@[self.spec_pix_offset(x as int, y as int) + 3],
            ],
            !self.rect.spec_inside(x as int, y as int) ==> r@ == seq![0u8, 0u8, 0u8, 0u8],
    {
        if !self.rect.xy_inside(x, y) {
            let z: [u8; 4] = [0, 0, 0, 0];
            assert(z@ =~= seq![0u8, 0u8, 0u8, 0u8]);
            z
        } else {
            let n = self.pix.len();
            let i = self.pix_offset(x, y);
            let r: [u8; 4] = [self.pix[i], self.pix[i + 1], self.pix[i + 2], self.pix[i + 3]];
            assert(r@ =~= seq![
                self.pix@[self.spec_pix_offset(x as int, y as int)],
                self.pix@[self.spec_pix_offset(x as int, y as int) + 1],
                self.pix@[self.spec_pix_offset(x as int, y as int) + 2],
                self.pix@[self.spec_pix_offset(x as int, y as int) + 3],
            ]);
            r
        }
    }

    /// The buffer after writing the four bytes of one pixel.
    pub open spec fn spec_with_pixel(self, x: int, y: int, color: Seq<u8>) -> Seq<u8> {
        let i = self.spec_pix_offset(x, y);
        self.pix@.update(i, color[0]).update(i + 1, color[1]).update(i + 2, color[2]).update(
            i + 3,
            color[3],
        )
    }

    /// Set the pixel at (x, y); writes outside the bounds are ignored.
    pub fn set(&mut self, x: usize, y: usize, color: [u8; 4])
        requires
            old(self).wf(),
        ensures
            final(self).wf(),
            final(self).stride == old(self).stride && final(self).rect == old(self).rect,
            old(self).rect.spec_inside(x as int, y as int) ==> final(self).pix@ == old(
                self,
            ).spec_with_pixel(x as int, y as int, color@),
            !old(self).rect.spec_inside(x as int, y as int) ==> *final(self) == *old(self),
    {
        if self.rect.xy_inside(x, y) {
            let n = self.pix.len();
            let i = self.pix_offset(x, y);
            self.pix.set(i, color[0]);
            self.pix.set(i + 1, color[1]);
            self.pix.set(i + 2, color[2]);
            self.pix.set(i + 3, color[3]);
        }
    }

    /// Set the pixel at (x, y) from separate components; writes outside
    /// the bounds are ignored.
    pub fn set_components(&mut self, x: usize, y: usize, r: u8, g: u8, b: u8, a: u8)
        requires
            old(self).wf(),
        ensures
            final(self).wf(),
            final(self).stride == old(self).stride && final(self).rect == old(self).rect,
            old(self).rect.spec_inside(x as int, y as int) ==> final(self).pix@ == old(
                self,
            ).spec_with_pixel(x as int, y as int, seq![r, g, b, a]),
            !old(self).rect.spec_inside(x as int, y as int) ==> *final(self) == *old(self),
    {
        if self.rect.xy_inside(x, y) {
            let n = self.pix.len();
            let i = self.pix_offset(x, y);
            self.pix.set(i, r);
            self.pix.set(i + 1, g);
            self.pix.set(i + 2, b);
            self.pix.set(i + 3, a);
        }
    }
}

} // verus!
