use vstd::prelude::*;
use crate::textures::Image;

verus! {

/// Color written by `clear`: opaque black.
pub const BACKGROUND: u32 = 0xFF00_0000;

/// Row-major index of the pixel at `(x, y)` in a buffer `w` wide.
pub open spec fn pixel_index(w: int, x: int, y: int) -> int {
    y * w + x
}

/// Pixel coordinates inside a `w` by `h` buffer address distinct
/// row-major indices, all below `w * h`.
pub proof fn lemma_pixel_index_in_range(w: int, h: int, x: int, y: int)
    requires
        0 <= x < w,
        0 <= y < h,
    ensures
        0 <= pixel_index(w, x, y) < w * h,
{
    assert(0 <= y * w + x < w * h) by (nonlinear_arith)
        requires 0 <= x < w && 0 <= y < h;
}

/// Row-major indexing is injective over in-range coordinates.
pub proof fn lemma_pixel_index_injective(w: int, x1: int, y1: int, x2: int, y2: int)
    requires
        0 <= x1 < w,
        0 <= x2 < w,
        0 <= y1,
        0 <= y2,
        pixel_index(w, x1, y1) == pixel_index(w, x2, y2),
    ensures
        x1 == x2,
        y1 == y2,
{
    assert(x1 == x2 && y1 == y2) by (nonlinear_arith)
        requires
            0 <= x1 < w && 0 <= x2 < w && 0 <= y1 && 0 <= y2
                && y1 * w + x1 == y2 * w + x2;
}

/// Packs an 8-bit RGB triple into one opaque framebuffer pixel.
pub fn rgb_to_u32(r: u8, g: u8, b: u8) -> (c: u32)
    ensures
        c == 0xFF00_0000u32 | ((r as u32) << 16) | ((g as u32) << 8) | (b as u32),
{
    0xFF00_0000u32 | ((r as u32) << 16) | ((g as u32) << 8) | (b as u32)
}

/// Fixed-size 2D pixel buffer, origin top-left, one opaque RGB `u32`
/// per pixel.
pub struct Framebuffer {
    width: usize,
    height: usize,
    buffer: Vec<u32>,
}

impl Framebuffer {
    pub closed spec fn w(self) -> int {
        self.width as int
    }

    pub closed spec fn h(self) -> int {
        self.height as int
    }

    pub closed spec fn buf(self) -> Seq<u32> {
        self.buffer@
    }

    pub open spec fn wf(self) -> bool {
        &&& self.buf().len() == self.w() * self.h()
        &&& 1 <= self.w() <= 4096
        &&& 1 <= self.h() <= 4096
    }

    pub open spec fn pixel(self, x: int, y: int) -> u32 {
        self.buf()[pixel_index(self.w(), x, y)]
    }

    pub fn new(width: usize, height: usize) -> (r: Framebuffer)
        requires
            1 <= width <= 4096,
            1 <= height <= 4096,
        ensures
            r.wf(),
            r.w() == width,
            r.h() == height,
            forall|x: int, y: int|
                0 <= x < width && 0 <= y < height ==> #[trigger] r.pixel(x, y) == BACKGROUND,
    {
        proof {
            assert(width * height <= 0x100_0000) by (nonlinear_arith)
                requires 1 <= width <= 4096 && 1 <= height <= 4096;
        }
        let n: usize = width * height;
        let mut buffer: Vec<u32> = Vec::new();
        let mut i: usize = 0;
        while i < n
            invariant
                buffer@.len() == i,
                i <= n,
                forall|j: int| 0 <= j < i ==> buffer@[j] == BACKGROUND,
            decreases n - i,
        {
            buffer.push(BACKGROUND);
            i = i + 1;
        }
        let r = Framebuffer { width, height, buffer };
        proof {
            assert forall|x: int, y: int|
                0 <= x < width && 0 <= y < height implies #[trigger] r.pixel(x, y) == BACKGROUND by {
                lemma_pixel_index_in_range(width as int, height as int, x, y);
            }
        }
        r
    }

    pub fn width(&self) -> (r: usize)
        ensures
            r == self.w(),
    {
        self.width
    }

    pub fn height(&self) -> (r: usize)
        ensures
            r == self.h(),
    {
        self.height
    }

    /// The raw pixel rows, for presentation by the caller.
    pub fn data(&self) -> (r: &Vec<u32>)
        ensures
            r@ == self.buf(),
    {
        &self.buffer
    }

    /// Fill the whole buffer with the background color.
    pub fn clear(&mut self)
        requires
            old(self).wf(),
        ensures
            final(self).wf(),
            final(self).w() == old(self).w(),
            final(self).h() == old(self).h(),
            forall|x: int, y: int|
                0 <= x < final(self).w() && 0 <= y < final(self).h()
                    ==> #[trigger] final(self).pixel(x, y) == BACKGROUND,
    {
        let n = self.buffer.len();
        let mut i: usize = 0;
        while i < n
            invariant
                self.buffer@.len() == n,
                i <= n,
                self.width == old(self).width,
                self.height == old(self).height,
                forall|j: int| 0 <= j < i ==> self.buffer@[j] == BACKGROUND,
            decreases n - i,
        {
            self.buffer.set(i, BACKGROUND);
            i = i + 1;
        }
        proof {
            assert forall|x: int, y: int|
                0 <= x < self.w() && 0 <= y < self.h()
                    implies #[trigger] self.pixel(x, y) == BACKGROUND by {
                lemma_pixel_index_in_range(self.w(), self.h(), x, y);
            }
        }
    }

    /// Write one pixel.
    pub fn point(&mut self, x: usize, y: usize, color: u32)
        requires
            old(self).wf(),
            x < old(self).w(),
            y < old(self).h(),
        ensures
            final(self).wf(),
            final(self).w() == old(self).w(),
            final(self).h() == old(self).h(),
            final(self).buf() == old(self).buf().update(
                pixel_index(old(self).w(), x as int, y as int),
                color,
            ),
    {
        proof {
            lemma_pixel_index_in_range(self.w(), self.h(), x as int, y as int);
            assert((y as int) * (self.width as int) + (x as int) < 0x100_0000)
                by (nonlinear_arith)
                requires
                    0 <= y as int,
                    0 <= x as int,
                    0 < self.width as int <= 4096,
                    self.height as int <= 4096,
                    (y as int) < self.height as int,
                    (x as int) < self.width as int;
        }
        let i: usize = y * self.width + x;
        self.buffer.set(i, color);
    }

    /// Blit `img` stretched over the whole buffer with nearest-neighbor
    /// sampling.
    pub fn draw_image(&mut self, img: &Image)
        requires
            old(self).wf(),
            img.wf(),
        ensures
            final(self).wf(),
            final(self).w() == old(self).w(),
            final(self).h() == old(self).h(),
            forall|x: int, y: int|
                0 <= x < final(self).w() && 0 <= y < final(self).h()
                    ==> #[trigger] final(self).pixel(x, y)
                        == img.pixel(x * img.w() / final(self).w(), y * img.h() / final(self).h()),
    {
        let w = self.width;
        let h = self.height;
        let iw = img.width();
        let ih = img.height();
        let mut y: usize = 0;
        while y < h
            invariant
                self.wf(),
                img.wf(),
                self.w() == old(self).w(),
                self.h() == old(self).h(),
                w == self.w() && h == self.h(),
                iw == img.w() && ih == img.h(),
                y <= h,
                forall|px: int, py: int|
                    0 <= px < w && 0 <= py < y ==> #[trigger] self.pixel(px, py)
                        == img.pixel(px * img.w() / w as int, py * img.h() / h as int),
            decreases h - y,
        {
            proof {
                crate::textures::lemma_scaled_sample_in_range(y as int, h as int, ih as int);
                assert((y as int) * (ih as int) <= 0x100_0000) by (nonlinear_arith)
                    requires 0 <= y as int && y as int <= 4096 && 0 < ih as int <= 4096;
            }
            let sy: usize = y * ih / h;
            let mut x: usize = 0;
            while x < w
                invariant
                    self.wf(),
                    img.wf(),
                    self.w() == old(self).w(),
                    self.h() == old(self).h(),
                    w == self.w() && h == self.h(),
                    iw == img.w() && ih == img.h(),
                    y < h,
                    x <= w,
                    sy == y as int * img.h() / h as int,
                    0 <= sy < img.h(),
                    forall|px: int, py: int|
                        0 <= px < w && 0 <= py < y ==> #[trigger] self.pixel(px, py)
                            == img.pixel(px * img.w() / w as int, py * img.h() / h as int),
                    forall|px: int| 0 <= px < x ==> #[trigger] self.pixel(px, y as int)
                        == img.pixel(px * img.w() / w as int, y as int * img.h() / h as int),
                decreases w - x,
            {
                proof {
                    crate::textures::lemma_scaled_sample_in_range(x as int, w as int, iw as int);
                    assert((x as int) * (iw as int) <= 0x100_0000) by (nonlinear_arith)
                        requires 0 <= x as int && x as int <= 4096 && 0 < iw as int <= 4096;
                }
                let sx: usize = x * iw / w;
                let c = img.sample(sx, sy);
                let ghost prev = *self;
                self.point(x, y, c);
                proof {
                    assert forall|px: int, py: int|
                        0 <= px < w && 0 <= py < h && !(px == x as int && py == y as int)
                            implies #[trigger] self.pixel(px, py) == prev.pixel(px, py) by {
                        lemma_pixel_index_in_range(w as int, h as int, px, py);
                        lemma_pixel_index_in_range(w as int, h as int, x as int, y as int);
                        if pixel_index(w as int, px, py)
                            == pixel_index(w as int, x as int, y as int) {
                            lemma_pixel_index_injective(w as int, px, py, x as int, y as int);
                        }
                    }
                    assert(self.pixel(x as int, y as int) == c) by {
                        lemma_pixel_index_in_range(w as int, h as int, x as int, y as int);
                    }
                }
                x = x + 1;
            }
            y = y + 1;
        }
    }
}

} // verus!
