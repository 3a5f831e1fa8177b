//! Output rasters: rows of pixels kept as raw bytes.

use crate::texture::{Rgb, Rgba};
use vstd::prelude::*;

verus! {

/// The pixel that four raw bytes hold.
pub open spec fn rgba_at(data: Seq<u8>, i: int) -> Rgba {
    Rgba { r: data[4 * i], g: data[4 * i + 1], b: data[4 * i + 2], a: data[4 * i + 3] }
}

/// The pixel that three raw bytes hold.
pub open spec fn rgb_at(data: Seq<u8>, i: int) -> Rgb {
    Rgb { r: data[3 * i], g: data[3 * i + 1], b: data[3 * i + 2] }
}

/// A raster of opaque pixels, row by row, three bytes for each pixel.
#[derive(Debug, Clone, PartialEq, Eq)]
pub struct RgbImage {
    width: usize,
    height: usize,
    data: Vec<u8>,
}

impl RgbImage {
    /// Number of columns.
    pub closed spec fn spec_width(&self) -> usize {
        self.width
    }

    /// Number of rows.
    pub closed spec fn spec_height(&self) -> usize {
        self.height
    }

    /// The raw bytes: red, green and blue of each pixel, row by row.
    pub closed spec fn bytes(&self) -> Seq<u8> {
        self.data@
    }

    /// The invariant: three bytes for each pixel.
    pub open spec fn wf(&self) -> bool {
        self.bytes().len() == self.spec_width() * self.spec_height() * 3
    }

    /// The pixel in column `x` of row `y`.
    pub open spec fn pixel(&self, x: int, y: int) -> Rgb {
        rgb_at(self.bytes(), y * self.spec_width() + x)
    }

    /// A black raster.
    pub fn new(width: usize, height: usize) -> (img: RgbImage)
        requires
            width * height * 3 <= usize::MAX,
        ensures
            img.wf(),
            img.spec_width() == width,
            img.spec_height() == height,
            forall|i: int| 0 <= i < img.bytes().len() ==> img.bytes()[i] == 0,
    {
        assert(width * height <= width * height * 3) by (nonlinear_arith)
            requires
                0 <= width,
                0 <= height,
        ;
        let data: Vec<u8> = vec![0u8; width * height * 3];
        RgbImage { width, height, data }
    }

    /// Number of columns.
    #[verifier::when_used_as_spec(spec_width)]
    pub fn width(&self) -> (w: usize)
        ensures
            w == self.spec_width(),
    {
        self.width
    }

    /// Number of rows.
    #[verifier::when_used_as_spec(spec_height)]
    pub fn height(&self) -> (h: usize)
        ensures
            h == self.spec_height(),
    {
        self.height
    }

    /// The pixel in column `x` of row `y`.
    pub fn get_pixel(&self, x: usize, y: usize) -> (p: Rgb)
        requires
            self.wf(),
            x < self.spec_width(),
            y < self.spec_height(),
        ensures
            p == self.pixel(x as int, y as int),
    {
        let total: usize = self.data.len();
        proof {
            lemma_pixel_fits(x as int, y as int, self.width as int, self.height as int, 3);
        }
        let at: usize = (y * self.width + x) * 3;
        Rgb { r: self.data[at], g: self.data[at + 1], b: self.data[at + 2] }
    }

    /// Sets the pixel in column `x` of row `y`.
    pub fn put_pixel(&mut self, x: usize, y: usize, p: Rgb)
        requires
            old(self).wf(),
            x < old(self).spec_width(),
            y < old(self).spec_height(),
        ensures
            final(self).wf(),
            final(self).spec_width() == old(self).spec_width(),
            final(self).spec_height() == old(self).spec_height(),
            final(self).pixel(x as int, y as int) == p,
            forall|i: int, j: int|
                0 <= i < old(self).spec_width() && 0 <= j < old(self).spec_height() && (i != x || j
                    != y) ==> final(self).pixel(i, j) == old(self).pixel(i, j),
    {
        let total: usize = self.data.len();
        proof {
            lemma_pixel_fits(x as int, y as int, self.width as int, self.height as int, 3);
        }
        let at: usize = (y * self.width + x) * 3;
        self.data[at] = p.r;
        self.data[at + 1] = p.g;
        self.data[at + 2] = p.b;
        proof {
            let w = self.width as int;
            assert forall|i: int, j: int|
                0 <= i < w && 0 <= j < self.height && (i != x || j != y) implies self.pixel(i, j)
                == old(self).pixel(i, j) by {
                lemma_pixel_distinct(i, j, x as int, y as int, w);
                lemma_pixel_fits(i, j, w, self.height as int, 1);
            }
        }
    }

    /// The raw bytes: red, green and blue of each pixel, row by row.
    pub fn as_raw(&self) -> (data: &Vec<u8>)
        ensures
            data@ == self.bytes(),
    {
        &self.data
    }

    /// Gives up the raster for its raw bytes.
    pub fn into_raw(self) -> (data: Vec<u8>)
        ensures
            data@ == self.bytes(),
    {
        self.data
    }
}

/// A raster of pixels with alpha, row by row, four bytes for each pixel.
#[derive(Debug, Clone, PartialEq, Eq)]
pub struct RgbaImage {
    width: usize,
    height: usize,
    data: Vec<u8>,
}

impl RgbaImage {
    /// Number of columns.
    pub closed spec fn spec_width(&self) -> usize {
        self.width
    }

    /// Number of rows.
    pub closed spec fn spec_height(&self) -> usize {
        self.height
    }

    /// The raw bytes: red, green, blue and alpha of each pixel, row by row.
    pub closed spec fn bytes(&self) -> Seq<u8> {
        self.data@
    }

    /// The invariant: four bytes for each pixel.
    pub open spec fn wf(&self) -> bool {
        self.bytes().len() == self.spec_width() * self.spec_height() * 4
    }

    /// The pixel in column `x` of row `y`.
    pub open spec fn pixel(&self, x: int, y: int) -> Rgba {
        rgba_at(self.bytes(), y * self.spec_width() + x)
    }

    /// A raster of transparent black.
    pub fn new(width: usize, height: usize) -> (img: RgbaImage)
        requires
            width * height * 4 <= usize::MAX,
        ensures
            img.wf(),
            img.spec_width() == width,
            img.spec_height() == height,
            forall|i: int| 0 <= i < img.bytes().len() ==> img.bytes()[i] == 0,
    {
        assert(width * height <= width * height * 4) by (nonlinear_arith)
            requires
                0 <= width,
                0 <= height,
        ;
        let data: Vec<u8> = vec![0u8; width * height * 4];
        RgbaImage { width, height, data }
    }

    /// Number of columns.
    #[verifier::when_used_as_spec(spec_width)]
    pub fn width(&self) -> (w: usize)
        ensures
            w == self.spec_width(),
    {
        self.width
    }

    /// Number of rows.
    #[verifier::when_used_as_spec(spec_height)]
    pub fn height(&self) -> (h: usize)
        ensures
            h == self.spec_height(),
    {
        self.height
    }

    /// The pixel in column `x` of row `y`.
    pub fn get_pixel(&self, x: usize, y: usize) -> (p: Rgba)
        requires
            self.wf(),
            x < self.spec_width(),
            y < self.spec_height(),
        ensures
            p == self.pixel(x as int, y as int),
    {
        let total: usize = self.data.len();
        proof {
            lemma_pixel_fits(x as int, y as int, self.width as int, self.height as int, 4);
        }
        let at: usize = (y * self.width + x) * 4;
        Rgba { r: self.data[at], g: self.data[at + 1], b: self.data[at + 2], a: self.data[at + 3] }
    }

    /// Sets the pixel in column `x` of row `y`.
    pub fn put_pixel(&mut self, x: usize, y: usize, p: Rgba)
        requires
            old(self).wf(),
            x < old(self).spec_width(),
            y < old(self).spec_height(),
        ensures
            final(self).wf(),
            final(self).spec_width() == old(self).spec_width(),
            final(self).spec_height() == old(self).spec_height(),
            final(self).pixel(x as int, y as int) == p,
            forall|i: int, j: int|
                0 <= i < old(self).spec_width() && 0 <= j < old(self).spec_height() && (i != x || j
                    != y) ==> final(self).pixel(i, j) == old(self).pixel(i, j),
    {
        let total: usize = self.data.len();
        proof {
            lemma_pixel_fits(x as int, y as int, self.width as int, self.height as int, 4);
        }
        let at: usize = (y * self.width + x) * 4;
        self.data[at] = p.r;
        self.data[at + 1] = p.g;
        self.data[at + 2] = p.b;
        self.data[at + 3] = p.a;
        proof {
            let w = self.width as int;
            assert forall|i: int, j: int|
                0 <= i < w && 0 <= j < self.height && (i != x || j != y) implies self.pixel(i, j)
                == old(self).pixel(i, j) by {
                lemma_pixel_distinct(i, j, x as int, y as int, w);
                lemma_pixel_fits(i, j, w, self.height as int, 1);
            }
        }
    }

    /// The raw bytes: red, green, blue and alpha of each pixel, row by row.
    pub fn as_raw(&self) -> (data: &Vec<u8>)
        ensures
            data@ == self.bytes(),
    {
        &self.data
    }

    /// Gives up the raster for its raw bytes.
    pub fn into_raw(self) -> (data: Vec<u8>)
        ensures
            data@ == self.bytes(),
    {
        self.data
    }
}

/// Two rasters of one size whose pixels agree hold the same bytes.
pub proof fn lemma_rgb_bytes(a: RgbImage, b: RgbImage)
    requires
        a.wf(),
        b.wf(),
        a.spec_width() == b.spec_width(),
        a.spec_height() == b.spec_height(),
        forall|x: int, y: int|
            0 <= x < a.spec_width() && 0 <= y < a.spec_height() ==> #[trigger] a.pixel(x, y)
                == b.pixel(x, y),
    ensures
        a.bytes() == b.bytes(),
{
    let w = a.spec_width() as int;
    let h = a.spec_height() as int;
    assert forall|k: int| 0 <= k < a.bytes().len() implies a.bytes()[k] == b.bytes()[k] by {
        let p = k / 3;
        lemma_pixel_position(p, w, h);
        let x = p % w;
        let y = p / w;
        assert(a.pixel(x, y) == b.pixel(x, y));
        assert(y * w + x == p);
    }
    assert(a.bytes() =~= b.bytes());
}

/// Two rasters of one size whose pixels agree hold the same bytes.
pub proof fn lemma_rgba_bytes(a: RgbaImage, b: RgbaImage)
    requires
        a.wf(),
        b.wf(),
        a.spec_width() == b.spec_width(),
        a.spec_height() == b.spec_height(),
        forall|x: int, y: int|
            0 <= x < a.spec_width() && 0 <= y < a.spec_height() ==> #[trigger] a.pixel(x, y)
                == b.pixel(x, y),
    ensures
        a.bytes() == b.bytes(),
{
    let w = a.spec_width() as int;
    let h = a.spec_height() as int;
    assert forall|k: int| 0 <= k < a.bytes().len() implies a.bytes()[k] == b.bytes()[k] by {
        let p = k / 4;
        lemma_pixel_position(p, w, h);
        let x = p % w;
        let y = p / w;
        assert(a.pixel(x, y) == b.pixel(x, y));
        assert(y * w + x == p);
    }
    assert(a.bytes() =~= b.bytes());
}

/// Pixel number `p` of a raster of `w` by `h` pixels lies in column `p % w`
/// of row `p / w`.
pub proof fn lemma_pixel_position(p: int, w: int, h: int)
    requires
        0 <= p < w * h,
        0 <= h,
    ensures
        w > 0,
        0 <= p % w < w,
        0 <= p / w < h,
        (p / w) * w + p % w == p,
{
    assert(w > 0) by (nonlinear_arith)
        requires
            0 <= p < w * h,
            0 <= h,
    ;
    vstd::arithmetic::div_mod::lemma_fundamental_div_mod(p, w);
    vstd::arithmetic::div_mod::lemma_mod_bound(p, w);
    vstd::arithmetic::div_mod::lemma_div_pos_is_pos(p, w);
    assert((p / w) * w == w * (p / w)) by (nonlinear_arith);
    assert(p / w < h) by (nonlinear_arith)
        requires
            0 <= p < w * h,
            w > 0,
            p == w * (p / w) + p % w,
            0 <= p % w < w,
    ;
}

/// The bytes of pixel (x, y) lie inside a buffer of `w` by `h` pixels of `n`
/// bytes.
pub proof fn lemma_pixel_fits(x: int, y: int, w: int, h: int, n: int)
    by (nonlinear_arith)
    requires
        0 <= x < w,
        0 <= y < h,
        n > 0,
    ensures
        0 <= y * w + x < w * h,
        0 <= y * w <= y * w + x,
        (y * w + x) * n + n <= w * h * n,
        0 <= (y * w + x) * n,
{
}

/// Two different pixels of a row-major raster lie at different positions.
pub proof fn lemma_pixel_distinct(i: int, j: int, x: int, y: int, w: int)
    by (nonlinear_arith)
    requires
        0 <= i < w,
        0 <= x < w,
        0 <= j,
        0 <= y,
        i != x || j != y,
    ensures
        j * w + i != y * w + x,
{
}

} // verus!
