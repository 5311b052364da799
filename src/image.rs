//! An image as a grid of RGBA pixels in raster order, and its adjacency
//! factors: the distances between each pixel and its right, bottom-right,
//! bottom and bottom-left neighbours.
use vstd::prelude::*;

use rayon::iter::{IndexedParallelIterator, IntoParallelIterator, ParallelIterator};

use crate::error::ConfigurationError;
use crate::pixeldist::{get_pixeldist, pixeldist_sq, PixelDist, PixeldistAlg, Rgba};

verus! {

/// The raster index of the pixel at `(x, y)` in an image `w` pixels wide.
pub open spec fn raster_index(w: int, x: int, y: int) -> int {
    y * w + x
}

pub proof fn lemma_raster_index_bounds(w: int, h: int, x: int, y: int)
    requires
        0 <= x < w,
        0 <= y < h,
    ensures
        0 <= raster_index(w, x, y) < w * h,
{
    assert(0 <= y * w + x < w * h) by (nonlinear_arith)
        requires
            0 <= x < w,
            0 <= y < h,
    ;
}

pub proof fn lemma_raster_coords(w: int, h: int, i: int)
    requires
        0 <= i < w * h,
        w > 0,
    ensures
        0 <= i % w < w,
        0 <= i / w < h,
        raster_index(w, i % w, i / w) == i,
{
    vstd::arithmetic::div_mod::lemma_fundamental_div_mod(i, w);
    let q = i / w;
    let r = i % w;
    assert(0 <= q < h) by (nonlinear_arith)
        requires
            i == w * q + r,
            0 <= r < w,
            0 <= i < w * h,
            w > 0,
    ;
    assert(q * w == w * q) by (nonlinear_arith);
}

/// A grid of pixels, `width` by `height`, stored row by row.
pub struct PixelImage {
    pub(crate) width: u32,
    pub(crate) height: u32,
    pub(crate) pixels: Vec<Rgba>,
}

impl PixelImage {
    /// At least one pixel, and exactly `width * height` of them.
    pub open(crate) spec fn wf(&self) -> bool {
        self.pixels@.len() == self.width * self.height && 0 < self.pixels@.len() <= usize::MAX
    }

    pub open(crate) spec fn spec_width(&self) -> u32 {
        self.width
    }

    pub open(crate) spec fn spec_height(&self) -> u32 {
        self.height
    }

    pub open(crate) spec fn spec_pixels(&self) -> Seq<Rgba> {
        self.pixels@
    }

    pub open(crate) spec fn n(&self) -> int {
        self.pixels@.len() as int
    }

    /// The pixel at `(x, y)`.
    pub open(crate) spec fn at(&self, x: int, y: int) -> Rgba {
        self.pixels@[raster_index(self.width as int, x, y)]
    }

    pub open(crate) spec fn in_bounds(&self, c: (u32, u32)) -> bool {
        c.0 < self.width && c.1 < self.height
    }

    /// Makes an image from its pixels in raster order.
    pub fn new(width: u32, height: u32, pixels: Vec<Rgba>) -> (r: Result<
        PixelImage,
        ConfigurationError,
    >)
        ensures
            width * height == 0 ==> r == Err::<PixelImage, ConfigurationError>(
                ConfigurationError::ZeroSizeImage,
            ),
            width * height != 0 && pixels@.len() != width * height ==> r == Err::<
                PixelImage,
                ConfigurationError,
            >(ConfigurationError::PixelCountMismatch),
            width * height != 0 && pixels@.len() == width * height ==> r is Ok,
            r matches Ok(img) ==> img.wf() && img.spec_width() == width && img.spec_height()
                == height && img.spec_pixels() == pixels@,
    {
        assert(width as u64 * height as u64 <= 0xffff_fffe_0000_0001u64) by (nonlinear_arith)
            requires
                width <= 0xffff_ffffu32,
                height <= 0xffff_ffffu32,
        ;
        let n: u64 = width as u64 * height as u64;
        if n == 0 {
            Err(ConfigurationError::ZeroSizeImage)
        } else if pixels.len() as u64 != n {
            Err(ConfigurationError::PixelCountMismatch)
        } else {
            Ok(PixelImage { width, height, pixels })
        }
    }

    pub fn width(&self) -> (r: u32)
        ensures
            r == self.spec_width(),
    {
        self.width
    }

    pub fn height(&self) -> (r: u32)
        ensures
            r == self.spec_height(),
    {
        self.height
    }

    /// The number of pixels.
    pub fn len(&self) -> (r: usize)
        ensures
            r == self.spec_pixels().len(),
    {
        self.pixels.len()
    }

    /// The pixels in raster order.
    pub fn pixels(&self) -> (r: &Vec<Rgba>)
        ensures
            r@ == self.spec_pixels(),
    {
        &self.pixels
    }

    /// The raster index of `(x, y)`.
    pub fn index_of(&self, x: u32, y: u32) -> (r: usize)
        requires
            self.wf(),
            x < self.spec_width(),
            y < self.spec_height(),
        ensures
            r == raster_index(self.spec_width() as int, x as int, y as int),
            r < self.spec_pixels().len(),
    {
        let n = self.pixels.len();
        proof {
            lemma_raster_index_bounds(self.width as int, self.height as int, x as int, y as int);
            assert(y * self.width <= y * self.width + x);
        }
        let row: usize = y as usize * self.width as usize;
        row + x as usize
    }

    /// The coordinates of the pixel with raster index `i`.
    pub fn coords_of(&self, i: usize) -> (r: (u32, u32))
        requires
            self.wf(),
            i < self.spec_pixels().len(),
        ensures
            r.0 == (i as int) % (self.spec_width() as int),
            r.1 == (i as int) / (self.spec_width() as int),
            r.0 < self.spec_width(),
            r.1 < self.spec_height(),
            raster_index(self.spec_width() as int, r.0 as int, r.1 as int) == i,
    {
        proof {
            lemma_raster_coords(self.width as int, self.height as int, i as int);
        }
        ((i % self.width as usize) as u32, (i / self.width as usize) as u32)
    }

    /// The pixel at `(x, y)`.
    pub fn get(&self, x: u32, y: u32) -> (r: Rgba)
        requires
            self.wf(),
            x < self.spec_width(),
            y < self.spec_height(),
        ensures
            r == self.at(x as int, y as int),
    {
        let i = self.index_of(x, y);
        self.pixels[i]
    }

    /// The pixel at `(x, y)`, or `None` outside the image.
    pub fn get_checked(&self, x: u32, y: u32) -> (r: Option<Rgba>)
        requires
            self.wf(),
        ensures
            r == (if x < self.spec_width() && y < self.spec_height() {
                Some(self.at(x as int, y as int))
            } else {
                None
            }),
    {
        if x < self.width && y < self.height {
            Some(self.get(x, y))
        } else {
            None
        }
    }
}

/// The colour distance between two neighbouring pixels.
#[derive(Clone, Copy, Debug)]
pub struct PixeldistFactor {
    pub(crate) a_coords: (u32, u32),
    pub(crate) b_coords: (u32, u32),
    pub(crate) distance: PixelDist,
}

impl PixeldistFactor {
    pub open(crate) spec fn spec_a(&self) -> (u32, u32) {
        self.a_coords
    }

    pub open(crate) spec fn spec_b(&self) -> (u32, u32) {
        self.b_coords
    }

    pub open(crate) spec fn spec_distance(&self) -> PixelDist {
        self.distance
    }

    pub fn new(a_coords: (u32, u32), b_coords: (u32, u32), distance: PixelDist) -> (r:
        PixeldistFactor)
        ensures
            r.spec_a() == a_coords,
            r.spec_b() == b_coords,
            r.spec_distance() == distance,
    {
        PixeldistFactor { a_coords, b_coords, distance }
    }

    /// The coordinates of the first pixel.
    pub fn a_coords(&self) -> (r: &(u32, u32))
        ensures
            *r == self.spec_a(),
    {
        &self.a_coords
    }

    /// The coordinates of the second pixel.
    pub fn b_coords(&self) -> (r: &(u32, u32))
        ensures
            *r == self.spec_b(),
    {
        &self.b_coords
    }

    /// The distance between the two pixels.
    pub fn distance(&self) -> (r: PixelDist)
        ensures
            r == self.spec_distance(),
    {
        self.distance
    }
}

/// The factor between the pixels at `a` and `b`.
pub open(crate) spec fn factor_spec(
    img: PixelImage,
    alg: PixeldistAlg,
    a: (u32, u32),
    b: (u32, u32),
) -> PixeldistFactor {
    PixeldistFactor {
        a_coords: a,
        b_coords: b,
        distance: PixelDist {
            scaled_sq: pixeldist_sq(img.at(a.0 as int, a.1 as int), img.at(b.0 as int, b.1 as int), alg)
                as u32,
        },
    }
}

/// The factors of the pixel at `(x, y)`: right, bottom-right, bottom and
/// bottom-left neighbours, those that lie in the image.
pub open(crate) spec fn pixel_factors(img: PixelImage, alg: PixeldistAlg, x: u32, y: u32) -> Seq<
    PixeldistFactor,
> {
    let w = img.width as int;
    let h = img.height as int;
    let right = if x + 1 < w {
        seq![factor_spec(img, alg, (x, y), ((x + 1) as u32, y))]
    } else {
        Seq::empty()
    };
    let bottom_right = if x + 1 < w && y + 1 < h {
        seq![factor_spec(img, alg, (x, y), ((x + 1) as u32, (y + 1) as u32))]
    } else {
        Seq::empty()
    };
    let bottom = if y + 1 < h {
        seq![factor_spec(img, alg, (x, y), (x, (y + 1) as u32))]
    } else {
        Seq::empty()
    };
    let bottom_left = if x > 0 && y + 1 < h {
        seq![factor_spec(img, alg, (x, y), ((x - 1) as u32, (y + 1) as u32))]
    } else {
        Seq::empty()
    };
    right + bottom_right + bottom + bottom_left
}

/// The factors of the first `i` pixels in raster order.
pub open(crate) spec fn factors_upto(img: PixelImage, alg: PixeldistAlg, i: int) -> Seq<
    PixeldistFactor,
>
    decreases i,
{
    if i <= 0 {
        Seq::empty()
    } else {
        let j = i - 1;
        factors_upto(img, alg, j) + pixel_factors(
            img,
            alg,
            (j % (img.width as int)) as u32,
            (j / (img.width as int)) as u32,
        )
    }
}

/// The factor list of an image: every pixel's factors, in raster order.
pub open(crate) spec fn adjacency(img: PixelImage, alg: PixeldistAlg) -> Seq<PixeldistFactor> {
    factors_upto(img, alg, img.n())
}

/// Both pixels of every factor lie in the image.
pub open(crate) spec fn factors_fit(img: PixelImage, fs: Seq<PixeldistFactor>) -> bool {
    forall|j: int|
        0 <= j < fs.len() ==> img.in_bounds(#[trigger] fs[j].a_coords) && img.in_bounds(
            fs[j].b_coords,
        )
}

fn factor_of(img: &PixelImage, alg: &PixeldistAlg, a: (u32, u32), b: (u32, u32)) -> (r:
    PixeldistFactor)
    requires
        img.wf(),
        img.in_bounds(a),
        img.in_bounds(b),
    ensures
        r == factor_spec(*img, *alg, a, b),
{
    let pa = img.get(a.0, a.1);
    let pb = img.get(b.0, b.1);
    let d = get_pixeldist(&pa, &pb, alg);
    PixeldistFactor { a_coords: a, b_coords: b, distance: d }
}

fn push_pixel_factors(img: &PixelImage, alg: &PixeldistAlg, x: u32, y: u32, out: &mut Vec<
    PixeldistFactor,
>)
    requires
        img.wf(),
        x < img.width,
        y < img.height,
        factors_fit(*img, old(out)@),
    ensures
        final(out)@ == old(out)@ + pixel_factors(*img, *alg, x, y),
        factors_fit(*img, final(out)@),
{
    let w = img.width;
    let h = img.height;
    let ghost before = out@;
    if x + 1 < w {
        let f = factor_of(img, alg, (x, y), (x + 1, y));
        proof {
            lemma_fit_push(*img, out@, f);
        }
        out.push(f);
    }
    if x + 1 < w && y + 1 < h {
        let f = factor_of(img, alg, (x, y), (x + 1, y + 1));
        proof {
            lemma_fit_push(*img, out@, f);
        }
        out.push(f);
    }
    if y + 1 < h {
        let f = factor_of(img, alg, (x, y), (x, y + 1));
        proof {
            lemma_fit_push(*img, out@, f);
        }
        out.push(f);
    }
    if x > 0 && y + 1 < h {
        let f = factor_of(img, alg, (x, y), (x - 1, y + 1));
        proof {
            lemma_fit_push(*img, out@, f);
        }
        out.push(f);
    }
    assert(out@ =~= before + pixel_factors(*img, *alg, x, y));
}

proof fn lemma_fit_push(img: PixelImage, fs: Seq<PixeldistFactor>, f: PixeldistFactor)
    requires
        factors_fit(img, fs),
        img.in_bounds(f.a_coords),
        img.in_bounds(f.b_coords),
    ensures
        factors_fit(img, fs.push(f)),
{
    assert forall|j: int| 0 <= j < fs.push(f).len() implies img.in_bounds(
        #[trigger] fs.push(f)[j].a_coords,
    ) && img.in_bounds(fs.push(f)[j].b_coords) by {
        if j < fs.len() {
            assert(fs.push(f)[j] == fs[j]);
        }
    }
}

/// The factors of the pixel with raster index `i`.
fn pixel_factor_list(img: &PixelImage, alg: &PixeldistAlg, i: usize) -> (r: Vec<PixeldistFactor>)
    requires
        img.wf(),
        i < img.n(),
    ensures
        r@ == pixel_factors(
            *img,
            *alg,
            (i as int % (img.width as int)) as u32,
            (i as int / (img.width as int)) as u32,
        ),
        factors_fit(*img, r@),
{
    let (x, y) = img.coords_of(i);
    let mut out: Vec<PixeldistFactor> = Vec::new();
    push_pixel_factors(img, alg, x, y, &mut out);
    assert(out@ =~= pixel_factors(*img, *alg, x, y));
    out
}

/// Relies on rayon's `collect_into_vec`: the results of an indexed parallel
/// iterator are stored in index order.
#[verifier::external_body]
fn par_pixel_factors(img: &PixelImage, alg: &PixeldistAlg) -> (r: Vec<Vec<PixeldistFactor>>)
    requires
        img.wf(),
    ensures
        r@.len() == img.n(),
        forall|i: int|
            0 <= i < img.n() ==> (#[trigger] r@[i])@ == pixel_factors(
                *img,
                *alg,
                (i % (img.width as int)) as u32,
                (i / (img.width as int)) as u32,
            ) && factors_fit(*img, r@[i]@),
{
    let mut out: Vec<Vec<PixeldistFactor>> = Vec::new();
    (0..img.len()).into_par_iter().map(|i| pixel_factor_list(img, alg, i)).collect_into_vec(&mut out);
    out
}

/// Builds the factors between every pixel and its right, bottom-right, bottom
/// and bottom-left neighbours, in raster order.
pub fn build_factors(img: &PixelImage, alg: &PixeldistAlg) -> (r: Vec<PixeldistFactor>)
    requires
        img.wf(),
    ensures
        r@ == adjacency(*img, *alg),
        factors_fit(*img, r@),
{
    let per_pixel = par_pixel_factors(img, alg);
    let mut out: Vec<PixeldistFactor> = Vec::new();
    let n = img.len();
    let mut i: usize = 0;
    while i < n
        invariant
            img.wf(),
            n == img.n(),
            per_pixel@.len() == n,
            forall|i: int|
                0 <= i < n ==> (#[trigger] per_pixel@[i])@ == pixel_factors(
                    *img,
                    *alg,
                    (i % (img.width as int)) as u32,
                    (i / (img.width as int)) as u32,
                ) && factors_fit(*img, per_pixel@[i]@),
            0 <= i <= n,
            out@ == factors_upto(*img, *alg, i as int),
            factors_fit(*img, out@),
        decreases n - i,
    {
        let list = &per_pixel[i];
        let ghost start = out@;
        let mut j: usize = 0;
        while j < list.len()
            invariant
                factors_fit(*img, list@),
                0 <= j <= list@.len(),
                out@ == start + list@.take(j as int),
                factors_fit(*img, out@),
            decreases list@.len() - j,
        {
            proof {
                lemma_fit_push(*img, out@, list@[j as int]);
                assert(list@.take(j + 1) =~= list@.take(j as int).push(list@[j as int]));
            }
            out.push(list[j]);
            j += 1;
        }
        assert(list@.take(j as int) =~= list@);
        i += 1;
    }
    out
}

} // verus!
