use vstd::prelude::*;

verus! {

use vstd::arithmetic::div_mod::{
    lemma_div_pos_is_pos, lemma_mod_division_less_than_divisor, lemma_multiply_divide_lt,
};
use vstd::math::min;
use vstd::pervasive::VecAdditionalExecFns;
use crate::mask::inside_spec;
use crate::raster::Raster;
use crate::ratio::Ratio;

/// The raw RGBA bytes that resampling `data` (an `sw` by `sh` image) to
/// `tw` by `th` with the Lanczos 3-lobe filter produces.  The resampling is
/// a function of the source bytes and the dimensions alone; its exact values
/// are not axiomatized here, only named.
pub uninterp spec fn lanczos_resize(data: Seq<u8>, sw: int, sh: int, tw: int, th: int) -> Seq<u8>;

/// Relies on `image::DynamicImage::resize_exact` with the
/// `FilterType::Lanczos3` filter, and on `image::RgbaImage`'s raw-buffer
/// round trip (`from_raw` / `into_raw`): the resized image has exactly the
/// requested dimensions, its raw buffer holds 4 bytes per pixel, and the
/// resampling depends on nothing but the source bytes and the dimensions.
#[verifier::external_body]
fn resize_rgba(data: &Vec<u8>, sw: u32, sh: u32, tw: u32, th: u32) -> (r: Vec<u8>)
    requires
        data@.len() == 4 * (sw * sh),
        1 <= sw,
        1 <= sh,
        1 <= tw <= 16384,
        1 <= th <= 16384,
    ensures
        r@.len() == 4 * (tw * th),
        r@ == lanczos_resize(data@, sw as int, sh as int, tw as int, th as int),
{
    let img = image::RgbaImage::from_raw(sw, sh, data.clone()).unwrap();
    image::DynamicImage::ImageRgba8(img)
        .resize_exact(tw, th, image::imageops::FilterType::Lanczos3)
        .into_rgba8()
        .into_raw()
}

/// The numerator of the absolute circle diameter `ratio * min(w, h)`; its
/// denominator is `r.den`.
pub open spec fn diameter_numer(r: Ratio, w: int, h: int) -> int {
    r.num * min(w, h)
}

/// The buffer that compositing produces: byte `i` belongs to pixel
/// `p = i / 4`, which sits at column `p % w` and row `p / w`; the byte comes
/// from the overlay where the mask selects that pixel and from the base
/// everywhere else.  A diameter numerator below 1 selects nothing.
pub open spec fn composed(base: Seq<u8>, over: Seq<u8>, w: int, h: int, n: int, d: int) -> Seq<u8> {
    Seq::new(
        base.len(),
        |i: int|
            {
                let p = i / 4;
                if n >= 1 && inside_spec(p % w, p / w, h, n, d) {
                    over[i]
                } else {
                    base[i]
                }
            },
    )
}

/// Compositing with a mask that selects no pixel returns the base buffer
/// exactly, whatever the overlay holds.  This is the limit the circle-size
/// ratio tends to as it shrinks: once the effective circle radius of every
/// row is smaller than the distance from every pixel to its cell's center —
/// and in the degenerate case of a zero or negative diameter — the output is
/// the base image, byte for byte.
pub proof fn lemma_all_outside_keeps_base(
    base: Seq<u8>,
    over: Seq<u8>,
    w: int,
    h: int,
    n: int,
    d: int,
)
    requires
        1 <= w,
        1 <= h,
        base.len() == 4 * (w * h),
        forall|x: int, y: int|
            0 <= x < w && 0 <= y < h ==> !inside_spec(x, y, h, n, d),
    ensures
        composed(base, over, w, h, n, d) == base,
{
    let c = composed(base, over, w, h, n, d);
    assert forall|i: int| 0 <= i < base.len() implies c[i] == base[i] by {
        let p = i / 4;
        assert(0 <= p < w * h);
        lemma_mod_division_less_than_divisor(p, w);
        lemma_div_pos_is_pos(p, w);
        lemma_multiply_divide_lt(p, w, h);
        assert(0 <= p % w < w && 0 <= p / w < h);
    };
    assert(c =~= base);
}

/// Composites the overlay over the base through the circle-grid mask.
///
/// The overlay is first resampled to the base's dimensions, so the output
/// always has the base's width and height whatever the overlay's were.  Then
/// every pixel for which the mask's circle test holds — with the circle
/// diameter `circle_size` of the shorter base dimension, shrinking linearly
/// with the row — takes the overlay's color, and every other pixel keeps the
/// base's.
pub fn bubly_mix(main_image: Raster, second_image: Raster, circle_size: Ratio) -> (out: Raster)
    requires
        main_image.wf(),
        second_image.wf(),
        circle_size.wf(),
        1 <= main_image.width <= 16384,
        1 <= main_image.height <= 16384,
        1 <= second_image.width,
        1 <= second_image.height,
    ensures
        out.width == main_image.width,
        out.height == main_image.height,
        out.wf(),
        out.data@ == composed(
            main_image.data@,
            lanczos_resize(
                second_image.data@,
                second_image.width as int,
                second_image.height as int,
                main_image.width as int,
                main_image.height as int,
            ),
            main_image.width as int,
            main_image.height as int,
            diameter_numer(circle_size, main_image.width as int, main_image.height as int),
            circle_size.den as int,
        ),
{
    let w = main_image.width;
    let h = main_image.height;
    let ov = resize_rgba(&second_image.data, second_image.width, second_image.height, w, h);
    let m: u32 = if w < h {
        w
    } else {
        h
    };
    assert(circle_size.num * m <= 163_840_000) by (nonlinear_arith)
        requires
            circle_size.num <= 10_000,
            m <= 16384,
    ;
    let n: u32 = circle_size.num * m;
    let d: u32 = circle_size.den;
    let ghost b0 = main_image.data@;
    let ghost comp = composed(b0, ov@, w as int, h as int, n as int, d as int);
    assert(comp.len() == b0.len());
    let mut data = main_image.data;
    if n >= 1 {
        let wu: usize = w as usize;
        assert(wu * (h as usize) <= 0x1000_0000) by (nonlinear_arith)
            requires
                wu <= 16384,
                h <= 16384,
        ;
        let total: usize = wu * (h as usize);
        let mut p: usize = 0;
        while p < total
            invariant
                1 <= w <= 16384,
                1 <= h <= 16384,
                1 <= n <= 163_840_000,
                1 <= d <= 10_000,
                wu == w,
                total == w * h,
                total <= 0x1000_0000,
                p <= total,
                b0.len() == 4 * (w * h),
                ov@.len() == 4 * (w * h),
                data@.len() == b0.len(),
                comp == composed(b0, ov@, w as int, h as int, n as int, d as int),
                comp.len() == b0.len(),
                forall|i: int| 0 <= i < 4 * p ==> data@[i] == comp[i],
                forall|i: int| 4 * p <= i < data@.len() ==> data@[i] == b0[i],
            decreases total - p,
        {
            proof {
                lemma_mod_division_less_than_divisor(p as int, wu as int);
                lemma_div_pos_is_pos(p as int, wu as int);
                lemma_multiply_divide_lt(p as int, wu as int, h as int);
            }
            let x32: u32 = (p % wu) as u32;
            let y32: u32 = (p / wu) as u32;
            let base_idx: usize = 4 * p;
            assert((4 * p) / 4 == p && (4 * p + 1) / 4 == p && (4 * p + 2) / 4 == p && (4 * p
                + 3) / 4 == p);
            if crate::mask::pixel_uses_overlay(x32, y32, h, n, d) {
                data.set(base_idx, ov[base_idx]);
                data.set(base_idx + 1, ov[base_idx + 1]);
                data.set(base_idx + 2, ov[base_idx + 2]);
                data.set(base_idx + 3, ov[base_idx + 3]);
            }
            p = p + 1;
        }
        assert(data@ =~= comp);
    } else {
        assert(data@ =~= comp);
    }
    Raster { width: w, height: h, data }
}

} // verus!
