use vstd::prelude::*;

verus! {

use vstd::arithmetic::div_mod::lemma_fundamental_div_mod;

// The mask tiles the image with square cells of side `c = n / d` (a positive
// rational, the circle diameter), and draws one circle centered in each cell.
// Circles shrink linearly with the row index: writing `fy = floor(y / c)` for
// the raw row index, the row's formulas are
//
//   cell_y          = fy - 5/2
//   total_cells_y   = h/c - 15/4
//   height_fraction = 1 - cell_y / total_cells_y
//   diameter        = c * height_fraction
//
// and a pixel is inside when its distance from the cell's center is below
// `diameter / 2`.  Over the common denominator `4 * n * d` the diameter is
// `n * row_numer / (d * row_denom)`; rows outside the nominal range make it
// zero or negative, and then no pixel of the row is inside.  All of this is
// exact integer arithmetic: no rounding is involved anywhere.

/// `4 * n * d` times `total_cells_y - cell_y`, the numerator of the
/// height fraction (its denominator is `row_denom`).
pub open spec fn row_numer(h: int, n: int, d: int, fy: int) -> int {
    4 * (h * d) - 5 * n - 4 * (fy * n)
}

/// `4 * n * d` times `total_cells_y`.
pub open spec fn row_denom(h: int, n: int, d: int) -> int {
    4 * (h * d) - 15 * n
}

/// The circle test over cell-local data alone: `rx` and `ry` are the
/// remainders `x*d mod n` and `y*d mod n` (the cell-local position, scaled by
/// `d`), and the row's circle diameter is `n*a / (d*b)`.  The pixel sits at
/// `(2*rx - n) / (2*d)` from the cell center per axis, and the test
/// `sqrt(lx^2 + ly^2) < diameter/2` is equivalent, after clearing the (equal,
/// positive) denominators, to the integer comparison below.  `a * b > 0`
/// states that the diameter is positive and well defined; otherwise nothing
/// is inside.
pub open spec fn circle_decision(rx: int, ry: int, a: int, b: int, n: int) -> bool {
    let lx = 2 * rx - n;
    let ly = 2 * ry - n;
    a * b > 0 && (b * b) * (lx * lx + ly * ly) < (n * n) * (a * a)
}

/// Whether the overlay shows through at pixel `(x, y)` of an image of height
/// `h`, for a circle diameter of `n / d`.
pub open spec fn inside_spec(x: int, y: int, h: int, n: int, d: int) -> bool
    recommends
        n >= 1,
        d >= 1,
{
    circle_decision(
        (x * d) % n,
        (y * d) % n,
        row_numer(h, n, d, (y * d) / n),
        row_denom(h, n, d),
        n,
    )
}

/// The inside/outside decision is a pure function of the cell-local position
/// and of the row's effective circle size: two pixels, even of images of
/// different heights, with the same residues `x*d mod n` and `y*d mod n` and
/// the same height-fraction numerator (hence the same effective diameter)
/// get the same decision.
pub proof fn lemma_mask_depends_only_on_cell(
    x1: int, y1: int, h1: int,
    x2: int, y2: int, h2: int,
    n: int, d: int,
)
    requires
        n >= 1,
        d >= 1,
        (x1 * d) % n == (x2 * d) % n,
        (y1 * d) % n == (y2 * d) % n,
        row_numer(h1, n, d, (y1 * d) / n) == row_numer(h2, n, d, (y2 * d) / n),
        row_denom(h1, n, d) == row_denom(h2, n, d),
    ensures
        inside_spec(x1, y1, h1, n, d) == inside_spec(x2, y2, h2, n, d),
{
}

/// Decides whether pixel `(x, y)` takes the overlay's color, exactly as
/// `inside_spec` states.  The bounds keep every intermediate product of the
/// exact rational arithmetic inside an `i128`.
pub fn pixel_uses_overlay(x: u32, y: u32, h: u32, n: u32, d: u32) -> (r: bool)
    requires
        1 <= n <= 163_840_000,
        1 <= d <= 10_000,
        x < 16384,
        y < 16384,
        h <= 16384,
    ensures
        r == inside_spec(x as int, y as int, h as int, n as int, d as int),
{
    assert(x * d <= 163_840_000 && y * d <= 163_840_000 && h * d <= 163_840_000)
        by (nonlinear_arith)
        requires
            x < 16384,
            y < 16384,
            h <= 16384,
            d <= 10_000,
    ;
    let xd: u64 = (x as u64) * (d as u64);
    let yd: u64 = (y as u64) * (d as u64);
    let nu: u64 = n as u64;
    let rx: u64 = xd % nu;
    let fy: u64 = yd / nu;
    let ry: u64 = yd % nu;
    proof {
        lemma_fundamental_div_mod(yd as int, nu as int);
        assert(fy * nu <= yd) by (nonlinear_arith)
            requires
                yd == nu * fy + ry,
                ry >= 0,
                nu >= 1,
                fy >= 0,
        ;
    }
    let ni: i128 = n as i128;
    let di: i128 = d as i128;
    let hd: i128 = (h as i128) * di;
    let fyn: i128 = (fy as i128) * ni;
    assert(fyn == fy * nu);
    let a: i128 = 4 * hd - 5 * ni - 4 * fyn;
    let b: i128 = 4 * hd - 15 * ni;
    assert(-3_000_000_000 <= a <= 3_000_000_000);
    assert(-3_000_000_000 <= b <= 3_000_000_000);
    let lx: i128 = 2 * (rx as i128) - ni;
    let ly: i128 = 2 * (ry as i128) - ni;
    assert(-330_000_000 <= lx <= 330_000_000 && -330_000_000 <= ly <= 330_000_000);

    assert(-9_000_000_000_000_000_000 <= a * b <= 9_000_000_000_000_000_000
        && 0 <= b * b <= 9_000_000_000_000_000_000
        && 0 <= a * a <= 9_000_000_000_000_000_000) by (nonlinear_arith)
        requires
            -3_000_000_000 <= a <= 3_000_000_000,
            -3_000_000_000 <= b <= 3_000_000_000,
    ;
    assert(0 <= lx * lx <= 109_000_000_000_000_000 && 0 <= ly * ly <= 109_000_000_000_000_000)
        by (nonlinear_arith)
        requires
            -330_000_000 <= lx <= 330_000_000,
            -330_000_000 <= ly <= 330_000_000,
    ;
    assert(0 <= ni * ni <= 27_000_000_000_000_000) by (nonlinear_arith)
        requires
            0 <= ni <= 163_840_000,
    ;
    let ab: i128 = a * b;
    let bb: i128 = b * b;
    let lx2: i128 = lx * lx;
    let ly2: i128 = ly * ly;
    let dist: i128 = lx2 + ly2;
    assert(0 <= bb * dist <= 2_000_000_000_000_000_000_000_000_000_000_000_000)
        by (nonlinear_arith)
        requires
            0 <= bb <= 9_000_000_000_000_000_000,
            0 <= dist <= 218_000_000_000_000_000,
    ;
    let lhs: i128 = bb * dist;
    let nn: i128 = ni * ni;
    let aa: i128 = a * a;
    assert(0 <= nn * aa <= 300_000_000_000_000_000_000_000_000_000_000_000)
        by (nonlinear_arith)
        requires
            0 <= nn <= 27_000_000_000_000_000,
            0 <= aa <= 9_000_000_000_000_000_000,
    ;
    let rhs: i128 = nn * aa;
    ab > 0 && lhs < rhs
}

} // verus!
