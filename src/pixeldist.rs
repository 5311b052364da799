//! Distance between two RGBA pixels.
//!
//! A distance lies in `[0, 1]` and is the square root of a rational number.
//! It is held exactly: `PixelDist { scaled_sq }` stands for
//! `sqrt(scaled_sq / DIST_SCALE)`, so that comparisons between distances are
//! comparisons of integers.
use vstd::prelude::*;

verus! {

/// The common denominator of all squared distances: `510 * 585225`, the
/// redmean normaliser with its `/ 510` weights brought over.
pub const DIST_SCALE: u32 = 298464750;

/// The factor that brings `dR² + dG² + dB²` (maximum `3 * 255²`) to `DIST_SCALE`.
pub const EUCLIDEAN_FACTOR: u32 = 1530;

/// The factor that brings `dA²` (maximum `255²`) to `DIST_SCALE`.
pub const ALPHA_FACTOR: u32 = 4590;

/// A pixel with red, green, blue and alpha channels.
#[derive(Clone, Copy, Debug, PartialEq, Eq, Structural)]
pub struct Rgba {
    pub r: u8,
    pub g: u8,
    pub b: u8,
    pub a: u8,
}

impl Rgba {
    pub fn new(r: u8, g: u8, b: u8, a: u8) -> (p: Rgba)
        ensures
            p == (Rgba { r, g, b, a }),
    {
        Rgba { r, g, b, a }
    }
}

/// The algorithm used to measure the colour distance of two pixels.
#[derive(Clone, Copy, Debug, PartialEq, Eq, Structural)]
pub enum PixeldistAlg {
    /// Euclidean distance over the red, green and blue channels.
    Euclidean,
    /// Euclidean distance weighted by the mean red value, closer to human perception.
    Redmean,
}

/// A normalised pixel distance: `sqrt(scaled_sq / DIST_SCALE)`.
#[derive(Clone, Copy, Debug, PartialEq, Eq, Structural)]
pub struct PixelDist {
    pub scaled_sq: u32,
}

pub open spec fn sq_diff_spec(x: u8, y: u8) -> int {
    (x - y) * (x - y)
}

/// Both pixels carry colour: neither is fully transparent.
pub open spec fn both_coloured(p: Rgba, q: Rgba) -> bool {
    p.a != 0 && q.a != 0
}

/// `(dA / 255)²`, scaled.
pub open spec fn alpha_sq(x: u8, y: u8) -> int {
    ALPHA_FACTOR * sq_diff_spec(x, y)
}

/// `(dR² + dG² + dB²) / (3 * 255²)`, scaled.
pub open spec fn euclid_colour_sq(p: Rgba, q: Rgba) -> int {
    EUCLIDEAN_FACTOR * (sq_diff_spec(p.r, q.r) + sq_diff_spec(p.g, q.g) + sq_diff_spec(p.b, q.b))
}

/// `((2 + rmean/255) dR² + 4 dG² + (2 + (255 - rmean)/255) dB²) / 585225`, scaled,
/// with `rmean = (Ra + Rb) / 2`.
pub open spec fn redmean_colour_sq(p: Rgba, q: Rgba) -> int {
    (1020 + p.r + q.r) * sq_diff_spec(p.r, q.r) + 2040 * sq_diff_spec(p.g, q.g) + (1530 - p.r
        - q.r) * sq_diff_spec(p.b, q.b)
}

pub open spec fn euclidean_sq(p: Rgba, q: Rgba) -> int {
    if both_coloured(p, q) {
        euclid_colour_sq(p, q)
    } else {
        alpha_sq(p.a, q.a)
    }
}

pub open spec fn redmean_sq(p: Rgba, q: Rgba) -> int {
    if both_coloured(p, q) {
        redmean_colour_sq(p, q)
    } else {
        alpha_sq(p.a, q.a)
    }
}

/// The scaled squared distance of two pixels under `alg`.
pub open spec fn pixeldist_sq(p: Rgba, q: Rgba, alg: PixeldistAlg) -> int {
    match alg {
        PixeldistAlg::Euclidean => euclidean_sq(p, q),
        PixeldistAlg::Redmean => redmean_sq(p, q),
    }
}

pub(crate) fn sq_diff(x: u8, y: u8) -> (r: u32)
    ensures
        r == sq_diff_spec(x, y),
        r <= 65025,
{
    let d: u32 = if x >= y {
        (x - y) as u32
    } else {
        (y - x) as u32
    };
    assert(d * d == sq_diff_spec(x, y) && d * d <= 65025) by (nonlinear_arith)
        requires
            d == x - y || d == y - x,
            d <= 255,
    ;
    d * d
}

impl PixelDist {
    /// The distance is `sqrt(num / den)`.
    pub fn is_sqrt_of_ratio(&self, num: u64, den: u64) -> (r: bool)
        requires
            den > 0,
        ensures
            r == (self.scaled_sq * den == num * DIST_SCALE),
    {
        let s: u128 = self.scaled_sq as u128;
        let d: u128 = den as u128;
        let n: u128 = num as u128;
        assert(s * d <= 0xffff_ffffu128 * 0xffff_ffff_ffff_ffffu128 && n * DIST_SCALE
            <= 0xffff_ffff_ffff_ffffu128 * 0xffff_ffffu128) by (nonlinear_arith)
            requires
                s <= 0xffff_ffffu128,
                d <= 0xffff_ffff_ffff_ffffu128,
                n <= 0xffff_ffff_ffff_ffffu128,
                DIST_SCALE <= 0xffff_ffffu32,
        ;
        s * d == n * (DIST_SCALE as u128)
    }

    /// The distance is `num / den`.
    pub fn is_ratio(&self, num: u32, den: u32) -> (r: bool)
        requires
            den > 0,
        ensures
            r == (self.scaled_sq * (den * den) == (num * num) * DIST_SCALE),
    {
        let d: u64 = den as u64;
        let n: u64 = num as u64;
        assert(d * d <= 0xffff_fffe_0000_0001u64 && n * n <= 0xffff_fffe_0000_0001u64)
            by (nonlinear_arith)
            requires
                d <= 0xffff_ffffu64,
                n <= 0xffff_ffffu64,
        ;
        let d2: u64 = d * d;
        let n2: u64 = n * n;
        let s: u128 = self.scaled_sq as u128;
        assert(s * d2 <= 0xffff_ffffu128 * 0xffff_ffff_ffff_ffffu128 && n2 * DIST_SCALE
            <= 0xffff_ffff_ffff_ffffu128 * 0xffff_ffffu128) by (nonlinear_arith)
            requires
                s <= 0xffff_ffffu128,
                d2 <= 0xffff_ffff_ffff_ffffu64,
                n2 <= 0xffff_ffff_ffff_ffffu64,
                DIST_SCALE <= 0xffff_ffffu32,
        ;
        s * (d2 as u128) == (n2 as u128) * (DIST_SCALE as u128)
    }
}

/// Alpha-only distance `|Aa - Ab| / 255`, used when colour carries no meaning.
pub fn alpha_only_dist(a_a: u8, a_b: u8) -> (r: PixelDist)
    ensures
        r.scaled_sq == alpha_sq(a_a, a_b),
{
    let s = sq_diff(a_a, a_b);
    PixelDist { scaled_sq: ALPHA_FACTOR * s }
}

/// Normalised Euclidean distance `sqrt((dR² + dG² + dB²) / (3 * 255²))`, or the
/// alpha-only distance when either pixel is fully transparent.
pub fn euclidean(pixel_a: &Rgba, pixel_b: &Rgba) -> (r: PixelDist)
    ensures
        r.scaled_sq == euclidean_sq(*pixel_a, *pixel_b),
{
    if pixel_a.a != 0 && pixel_b.a != 0 {
        let dr = sq_diff(pixel_a.r, pixel_b.r);
        let dg = sq_diff(pixel_a.g, pixel_b.g);
        let db = sq_diff(pixel_a.b, pixel_b.b);
        PixelDist { scaled_sq: EUCLIDEAN_FACTOR * (dr + dg + db) }
    } else {
        alpha_only_dist(pixel_a.a, pixel_b.a)
    }
}

/// Redmean distance, or the alpha-only distance when either pixel is fully
/// transparent.
pub fn redmean(pixel_a: &Rgba, pixel_b: &Rgba) -> (r: PixelDist)
    ensures
        r.scaled_sq == redmean_sq(*pixel_a, *pixel_b),
{
    if pixel_a.a != 0 && pixel_b.a != 0 {
        let dr = sq_diff(pixel_a.r, pixel_b.r);
        let dg = sq_diff(pixel_a.g, pixel_b.g);
        let db = sq_diff(pixel_a.b, pixel_b.b);
        let rsum: u32 = pixel_a.r as u32 + pixel_b.r as u32;
        proof {
            lemma_redmean_bound(*pixel_a, *pixel_b);
        }
        let wr: u64 = (1020 + rsum) as u64 * dr as u64;
        let wg: u64 = 2040 * dg as u64;
        let wb: u64 = (1530 - rsum) as u64 * db as u64;
        assert(wr <= 1530 * 65025 && wb <= 1530 * 65025) by (nonlinear_arith)
            requires
                wr == (1020 + rsum) * dr,
                wb == (1530 - rsum) * db,
                rsum <= 510,
                dr <= 65025,
                db <= 65025,
        ;
        PixelDist { scaled_sq: (wr + wg + wb) as u32 }
    } else {
        alpha_only_dist(pixel_a.a, pixel_b.a)
    }
}

/// The distance of two pixels under the chosen algorithm.
pub fn get_pixeldist(pixel_a: &Rgba, pixel_b: &Rgba, alg: &PixeldistAlg) -> (r: PixelDist)
    ensures
        r.scaled_sq == pixeldist_sq(*pixel_a, *pixel_b, *alg),
{
    match alg {
        PixeldistAlg::Euclidean => euclidean(pixel_a, pixel_b),
        PixeldistAlg::Redmean => redmean(pixel_a, pixel_b),
    }
}

proof fn lemma_sq_diff_bounds(x: u8, y: u8)
    ensures
        0 <= sq_diff_spec(x, y) <= 65025,
        sq_diff_spec(x, y) == sq_diff_spec(y, x),
        sq_diff_spec(x, x) == 0,
{
    assert(0 <= (x - y) * (x - y) <= 65025) by (nonlinear_arith)
        requires
            0 <= x <= 255,
            0 <= y <= 255,
    ;
    assert((x - y) * (x - y) == (y - x) * (y - x)) by (nonlinear_arith);
}

proof fn lemma_redmean_bound(p: Rgba, q: Rgba)
    ensures
        0 <= redmean_colour_sq(p, q) <= DIST_SCALE,
{
    let s: int = p.r + q.r;
    let dr = sq_diff_spec(p.r, q.r);
    let dg = sq_diff_spec(p.g, q.g);
    let db = sq_diff_spec(p.b, q.b);
    lemma_sq_diff_bounds(p.r, q.r);
    lemma_sq_diff_bounds(p.g, q.g);
    lemma_sq_diff_bounds(p.b, q.b);
    assert(0 <= (1020 + s) * dr <= (1020 + s) * 65025) by (nonlinear_arith)
        requires
            0 <= s <= 510,
            0 <= dr <= 65025,
    ;
    assert(0 <= (1530 - s) * db <= (1530 - s) * 65025) by (nonlinear_arith)
        requires
            0 <= s <= 510,
            0 <= db <= 65025,
    ;
}

/// Every distance lies in `[0, 1]`, a pixel is at distance zero from itself,
/// and the distance does not depend on the order of the two pixels.
pub proof fn lemma_distance_bounds(p: Rgba, q: Rgba, alg: PixeldistAlg)
    ensures
        0 <= pixeldist_sq(p, q, alg) <= DIST_SCALE,
        pixeldist_sq(p, p, alg) == 0,
        pixeldist_sq(p, q, alg) == pixeldist_sq(q, p, alg),
{
    lemma_sq_diff_bounds(p.r, q.r);
    lemma_sq_diff_bounds(p.g, q.g);
    lemma_sq_diff_bounds(p.b, q.b);
    lemma_sq_diff_bounds(p.a, q.a);
    lemma_sq_diff_bounds(p.r, p.r);
    lemma_sq_diff_bounds(p.g, p.g);
    lemma_sq_diff_bounds(p.b, p.b);
    lemma_sq_diff_bounds(p.a, p.a);
    lemma_redmean_bound(p, q);
}

} // verus!
