use vstd::prelude::*;

verus! {

/// A fixed-size pixel image used for wall sampling and banners.
pub struct Image {
    width: usize,
    height: usize,
    pixels: Vec<u32>,
}

/// Scaling an in-range coordinate keeps it in range: for `0 <= x < b`
/// and `t > 0`, `x * t / b < t`.
pub proof fn lemma_scaled_sample_in_range(x: int, b: int, t: int)
    requires
        0 <= x < b,
        0 < t,
    ensures
        0 <= x * t / b < t,
{
    let q = x * t / b;
    assert(x * t >= 0) by (nonlinear_arith)
        requires x >= 0 && t > 0;
    vstd::arithmetic::div_mod::lemma_div_pos_is_pos(x * t, b);
    vstd::arithmetic::div_mod::lemma_fundamental_div_mod(x * t, b);
    assert(b * q <= x * t);
    assert(x * t < b * t) by (nonlinear_arith)
        requires x < b && t > 0;
    assert(q < t) by (nonlinear_arith)
        requires b > 0 && b * q <= x * t && x * t < b * t;
}

impl Image {
    pub closed spec fn w(self) -> int {
        self.width as int
    }

    pub closed spec fn h(self) -> int {
        self.height as int
    }

    pub closed spec fn pix(self) -> Seq<u32> {
        self.pixels@
    }

    pub open spec fn wf(self) -> bool {
        &&& self.pix().len() == self.w() * self.h()
        &&& 1 <= self.w() <= 4096
        &&& 1 <= self.h() <= 4096
    }

    pub open spec fn pixel(self, u: int, v: int) -> u32 {
        self.pix()[v * self.w() + u]
    }

    /// Wrap decoded pixel rows as an image; the caller supplies exactly
    /// `width * height` pixels.
    pub fn new(width: usize, height: usize, pixels: Vec<u32>) -> (r: Image)
        requires
            1 <= width <= 4096,
            1 <= height <= 4096,
            pixels@.len() == width * height,
        ensures
            r.wf(),
            r.w() == width,
            r.h() == height,
            r.pix() == pixels@,
    {
        Image { width, height, pixels }
    }

    pub fn width(&self) -> (r: usize)
        ensures
            r == self.w(),
    {
        self.width
    }

    pub fn height(&self) -> (r: usize)
        ensures
            r == self.h(),
    {
        self.height
    }

    /// Sampling accessor: the texel at column `u`, row `v`.
    pub fn sample(&self, u: usize, v: usize) -> (r: u32)
        requires
            self.wf(),
            u < self.w(),
            v < self.h(),
        ensures
            r == self.pixel(u as int, v as int),
    {
        proof {
            crate::framebuffer::lemma_pixel_index_in_range(
                self.w(), self.h(), u as int, v as int);
            assert((v as int) * (self.width as int) + (u as int) < 0x100_0000)
                by (nonlinear_arith)
                requires
                    0 <= v as int,
                    0 <= u as int,
                    0 < self.width as int <= 4096,
                    self.height as int <= 4096,
                    (v as int) < self.height as int,
                    (u as int) < self.width as int;
        }
        self.pixels[v * self.width + u]
    }
}

/// The texture set for one run: one wall texture per variant key and
/// the two alternating title-screen banners.
pub struct GameTextures {
    walls: Vec<Image>,
    start1: Image,
    start2: Image,
}

impl GameTextures {
    pub closed spec fn walls_seq(self) -> Seq<Image> {
        self.walls@
    }

    pub closed spec fn start1_img(self) -> Image {
        self.start1
    }

    pub closed spec fn start2_img(self) -> Image {
        self.start2
    }

    pub open spec fn wf(self) -> bool {
        &&& forall|i: int| 0 <= i < self.walls_seq().len()
            ==> (#[trigger] self.walls_seq()[i]).wf()
        &&& self.start1_img().wf()
        &&& self.start2_img().wf()
    }

    pub open spec fn n_walls(self) -> int {
        self.walls_seq().len() as int
    }

    /// The texel of wall texture `variant` at `(u, v)`.
    pub open spec fn wall_pixel(self, variant: int, u: int, v: int) -> u32 {
        self.walls_seq()[variant].pixel(u, v)
    }

    pub fn new(walls: Vec<Image>, start1: Image, start2: Image) -> (r: GameTextures)
        requires
            forall|i: int| 0 <= i < walls@.len() ==> (#[trigger] walls@[i]).wf(),
            start1.wf(),
            start2.wf(),
        ensures
            r.wf(),
            r.walls_seq() == walls@,
            r.start1_img() == start1,
            r.start2_img() == start2,
    {
        GameTextures { walls, start1, start2 }
    }

    pub fn wall_count(&self) -> (r: usize)
        ensures
            r == self.n_walls(),
    {
        self.walls.len()
    }

    /// Borrow the wall texture for a variant key.
    pub fn wall(&self, variant: u8) -> (r: &Image)
        requires
            self.wf(),
            variant < self.n_walls(),
        ensures
            *r == self.walls_seq()[variant as int],
            r.wf(),
    {
        &self.walls[variant as usize]
    }

    pub fn start_banner(&self, which: usize) -> (r: &Image)
        requires
            self.wf(),
        ensures
            *r == if which == 0 { self.start1_img() } else { self.start2_img() },
            r.wf(),
    {
        if which == 0 {
            &self.start1
        } else {
            &self.start2
        }
    }
}

} // verus!
