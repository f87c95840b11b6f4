use vstd::prelude::*;

verus! {

use vstd::arithmetic::div_mod::{
    lemma_div_pos_is_pos, lemma_fundamental_div_mod_converse,
    lemma_mod_division_less_than_divisor, lemma_multiply_divide_lt,
};

/// Largest width or height the compositor accepts.  The mask arithmetic is
/// done exactly in 128-bit integers, and this cap keeps every intermediate
/// product in range.
pub const MAX_DIM: u32 = 16384;

/// A rectangular grid of RGBA pixels: `data` holds 4 bytes per pixel in
/// row-major order, the channels of pixel `(x, y)` starting at byte
/// `4 * (y * width + x)`.
pub struct Raster {
    pub width: u32,
    pub height: u32,
    pub data: Vec<u8>,
}

impl Raster {
    /// The buffer holds exactly 4 bytes for each of the `width * height` pixels.
    pub open spec fn wf(self) -> bool {
        self.data@.len() == 4 * (self.width * self.height)
    }

    /// Channel `c` of the pixel at `(x, y)`.
    pub open spec fn pix(self, x: int, y: int, c: int) -> u8 {
        self.data@[4 * (y * self.width + x) + c]
    }

    /// Builds a raster from raw RGBA bytes; fails exactly when the buffer
    /// length does not match the dimensions.
    pub fn new(width: u32, height: u32, data: Vec<u8>) -> (r: Option<Raster>)
        requires
            width <= MAX_DIM,
            height <= MAX_DIM,
        ensures
            4 * (width * height) == data@.len() ==> (r matches Some(img)
                && img.width == width && img.height == height
                && img.data@ == data@ && img.wf()),
            4 * (width * height) != data@.len() ==> r is None,
    {
        assert(4 * ((width as usize) * (height as usize)) <= 0x4000_0000) by (nonlinear_arith)
            requires
                width <= 16384,
                height <= 16384,
        ;
        let expect: usize = 4 * ((width as usize) * (height as usize));
        if data.len() == expect {
            Some(Raster { width, height, data })
        } else {
            None
        }
    }
}

/// Rotates the image 270 degrees clockwise (so the output's width is the
/// input's height): the pixel at column `x`, row `y` of the output is the
/// input's pixel at column `width - 1 - y`, row `x`.  This is the portrait
/// normalization applied to both inputs before compositing.
pub fn rotate270(img: &Raster) -> (out: Raster)
    requires
        img.wf(),
        img.width <= MAX_DIM,
        img.height <= MAX_DIM,
    ensures
        out.wf(),
        out.width == img.height,
        out.height == img.width,
        forall|x: int, y: int, c: int|
            0 <= x < out.width && 0 <= y < out.height && 0 <= c < 4 ==> out.pix(x, y, c)
                == img.pix(img.width - 1 - y, x, c),
{
    let w = img.width;
    let h = img.height;
    let wu: usize = w as usize;
    let ow: usize = h as usize;
    let oh: usize = w as usize;
    assert(ow * oh <= 0x1000_0000) by (nonlinear_arith)
        requires
            ow <= 16384,
            oh <= 16384,
    ;
    let total: usize = ow * oh;
    let mut data: Vec<u8> = Vec::new();
    let mut p: usize = 0;
    while p < total
        invariant
            w == img.width,
            h == img.height,
            ow == h,
            oh == w,
            wu == w,
            w <= 16384,
            h <= 16384,
            img.wf(),
            total == ow * oh,
            total <= 0x1000_0000,
            p <= total,
            data@.len() == 4 * p,
            forall|x: int, y: int, c: int|
                #![trigger img.pix(w - 1 - y, x, c)]
                0 <= x < ow && 0 <= y < oh && 0 <= c < 4 && y * ow + x < p ==> data@[4 * (y * ow
                    + x) + c] == img.pix(w - 1 - y, x, c),
        decreases total - p,
    {
        proof {
            lemma_mod_division_less_than_divisor(p as int, ow as int);
            lemma_div_pos_is_pos(p as int, ow as int);
            lemma_multiply_divide_lt(p as int, ow as int, oh as int);
        }
        let xp: usize = p % ow;
        let yp: usize = p / ow;
        assert(xp * wu + (wu - 1 - yp) < wu * ow) by (nonlinear_arith)
            requires
                xp < ow,
                yp < oh,
                oh == wu,
                1 <= wu,
        ;
        assert(wu * ow == w * h && 4 * (w * h) == img.data@.len());
        let base: usize = 4 * (xp * wu + (wu - 1 - yp));
        let ghost before = data@;
        data.push(img.data[base]);
        data.push(img.data[base + 1]);
        data.push(img.data[base + 2]);
        data.push(img.data[base + 3]);
        assert forall|x: int, y: int, c: int|
            #![trigger img.pix(w - 1 - y, x, c)]
            0 <= x < ow && 0 <= y < oh && 0 <= c < 4 && y * ow + x < p + 1 implies data@[4 * (y
            * ow + x) + c] == img.pix(w - 1 - y, x, c) by {
            if y * ow + x < p {
                assert(data@[4 * (y * ow + x) + c] == before[4 * (y * ow + x) + c]);
            } else {
                lemma_fundamental_div_mod_converse(p as int, ow as int, y, x);
                assert(y == yp && x == xp);
                assert(data@[4 * (y * ow + x) + c] == img.data@[base + c]);
            }
        }
        p = p + 1;
    }
    let out = Raster { width: h, height: w, data };
    assert forall|x: int, y: int, c: int|
        0 <= x < out.width && 0 <= y < out.height && 0 <= c < 4 implies out.pix(x, y, c)
        == img.pix(img.width - 1 - y, x, c) by {
        assert(y * ow + x < total) by (nonlinear_arith)
            requires
                0 <= x < ow,
                0 <= y < oh,
                total == ow * oh,
        ;
    }
    out
}

} // verus!
