//! The grayscale image container: a flat row-major byte buffer together with
//! its row and column counts, with bounds-checked element access and an exact
//! bilinear rescaling operation.

use vstd::prelude::*;

verus! {

use vstd::arithmetic::div_mod::lemma_div_is_ordered;
use vstd::arithmetic::div_mod::lemma_div_multiples_vanish;
use vstd::arithmetic::div_mod::lemma_mod_multiples_basic;
use vstd::arithmetic::div_mod::lemma_div_pos_is_pos;
use vstd::arithmetic::div_mod::lemma_fundamental_div_mod;
use vstd::arithmetic::div_mod::lemma_fundamental_div_mod_converse_div;
use vstd::arithmetic::div_mod::lemma_mod_division_less_than_divisor;
use vstd::arithmetic::div_mod::lemma_multiply_divide_lt;

/// Error conditions reported by image construction.
#[derive(Debug, PartialEq, Eq, Structural)]
pub enum ImageError {
    /// The provided buffer's length disagrees with `rows * cols`.
    DimensionMismatch,
}

/// A 2D grayscale image with row-major pixel storage.
///
/// The image stores pixel data in a flat vector where pixels are arranged in
/// row-major order: the sample of pixel `(i, j)` sits at flat offset
/// `i * cols + j`.
#[derive(Clone, Debug)]
pub struct Image {
    nrows: usize,
    ncols: usize,
    pixels: Vec<u8>,
}

/// `0 <= i*c + j < r*c` for in-range indices: the row-major offset stays
/// inside the flat buffer.
proof fn lemma_row_major_bound(i: int, j: int, r: int, c: int)
    by (nonlinear_arith)
    requires
        0 <= i < r,
        0 <= j < c,
    ensures
        0 <= i * c + j < r * c,
{
}

/// Relates a product `a * b` to the bound `m` through the quotient `m / b`.
proof fn lemma_mul_div_bound(a: int, b: int, m: int)
    requires
        0 <= a,
        0 < b,
        0 <= m,
    ensures
        a <= m / b ==> a * b <= m,
        a > m / b ==> a * b > m,
{
    lemma_fundamental_div_mod(m, b);
    lemma_mod_division_less_than_divisor(m, b);
    let q = m / b;
    let s = m % b;
    assert(m == b * q + s);
    assert(a <= q ==> a * b <= m) by (nonlinear_arith)
        requires
            m == b * q + s,
            0 <= s,
            0 < b,
    ;
    assert(a > q ==> a * b > m) by (nonlinear_arith)
        requires
            m == b * q + s,
            s < b,
            0 < b,
    ;
}

/// A positive rational scale factor `num / den`.
///
/// Enlarging factors have `num > den`, shrinking factors `num < den`.
#[derive(Clone, Copy, Debug, PartialEq, Eq, Structural)]
pub struct ScaleFactor {
    /// Numerator; at least 1.
    pub num: u32,
    /// Denominator; at least 1.
    pub den: u32,
}

impl ScaleFactor {
    /// Well-formedness: the factor is a positive rational.
    pub open spec fn wf(&self) -> bool {
        self.num >= 1 && self.den >= 1
    }
}

/// A product of values within given nonnegative bounds stays within the
/// product of the bounds.
proof fn lemma_mul_le(a: int, b: int, x: int, y: int)
    by (nonlinear_arith)
    requires
        0 <= a <= x,
        0 <= b <= y,
    ensures
        0 <= a * b <= x * y,
{
}

/// A destination index `i` below `floor(n * num / den)` maps back to a source
/// index `floor(i * den / num)` below `n`.
proof fn lemma_src_index_bound(i: int, den: int, num: int, n: int)
    requires
        0 <= i,
        1 <= den,
        1 <= num,
        0 <= n,
        i < (n * num) / den,
    ensures
        0 <= (i * den) / num < n,
{
    assert(0 <= n * num) by (nonlinear_arith)
        requires 0 <= n && 0 <= num;
    lemma_mul_div_bound(i + 1, den, n * num);
    assert((i + 1) * den == i * den + den) by (nonlinear_arith);
    assert(i * den < num * n);
    lemma_multiply_divide_lt(i * den, num, n);
    assert(0 <= i * den) by (nonlinear_arith)
        requires 0 <= i && 0 <= den;
    lemma_div_pos_is_pos(i * den, num);
}

/// The four corner weights of the interpolation sum to `n * n`, so a weighted
/// sum of bytes stays within `255 * n * n`.
proof fn lemma_acc_bound(p00: int, p01: int, p10: int, p11: int, rx: int, ry: int, n: int)
    by (nonlinear_arith)
    requires
        0 <= p00 <= 255,
        0 <= p01 <= 255,
        0 <= p10 <= 255,
        0 <= p11 <= 255,
        0 <= rx < n,
        0 <= ry < n,
    ensures
        0 <= p00 * ((n - ry) * (n - rx)) + p01 * (ry * (n - rx)) + p10 * ((n - ry) * rx) + p11 * (
        ry * rx) <= 255 * (n * n),
{
}

/// Rounding a weighted average of bytes half-up stays within a byte.
proof fn lemma_round_quotient_bounds(acc: int, n: int)
    requires
        0 <= acc,
        1 <= n,
        acc <= 255 * (n * n),
    ensures
        0 <= (2 * acc + n * n) / (2 * (n * n)) <= 255,
{
    let nn = n * n;
    assert(1 <= n * n) by (nonlinear_arith)
        requires 1 <= n;
    lemma_div_pos_is_pos(2 * acc + nn, 2 * nn);
    lemma_div_is_ordered(2 * acc + nn, 511 * nn, 2 * nn);
    assert(511 * nn == 255 * (2 * nn) + nn);
    lemma_fundamental_div_mod_converse_div(511 * nn, 2 * nn, 255, nn);
}

impl Image {
    /// The number of rows, as a mathematical integer.
    pub closed spec fn spec_rows(&self) -> int {
        self.nrows as int
    }

    /// The number of columns, as a mathematical integer.
    pub closed spec fn spec_cols(&self) -> int {
        self.ncols as int
    }

    /// The flat row-major sample buffer.
    pub closed spec fn spec_pixels(&self) -> Seq<u8> {
        self.pixels@
    }

    /// Well-formedness: the flat buffer holds exactly `rows * cols` samples.
    pub open spec fn wf(&self) -> bool {
        self.spec_pixels().len() == self.spec_rows() * self.spec_cols()
    }

    /// The sample at row `i`, column `j` (row-major layout).
    pub open spec fn spec_at(&self, i: int, j: int) -> u8 {
        self.spec_pixels()[i * self.spec_cols() + j]
    }

    /// Creates a new image with all pixels initialized to zero.
    pub fn new(nrows: usize, ncols: usize) -> (r: Image)
        requires
            nrows * ncols <= usize::MAX,
        ensures
            r.wf(),
            r.spec_rows() == nrows,
            r.spec_cols() == ncols,
            forall|k: int| 0 <= k < r.spec_pixels().len() ==> r.spec_pixels()[k] == 0u8,
    {
        let n = nrows * ncols;
        let mut pixels: Vec<u8> = Vec::new();
        let mut k: usize = 0;
        while k < n
            invariant
                k <= n,
                pixels@.len() == k,
                forall|t: int| 0 <= t < k ==> pixels@[t] == 0u8,
            decreases n - k,
        {
            pixels.push(0);
            k = k + 1;
        }
        Image { nrows, ncols, pixels }
    }

    /// Creates an image from existing pixel data, taking ownership of the
    /// buffer. Succeeds exactly when the buffer's length equals
    /// `nrows * ncols`; otherwise reports the dimension mismatch.
    pub fn from_vec(nrows: usize, ncols: usize, pixels: Vec<u8>) -> (r: Result<Image, ImageError>)
        ensures
            pixels@.len() == nrows * ncols ==> (r matches Ok(img)
                && img.wf()
                && img.spec_rows() == nrows
                && img.spec_cols() == ncols
                && img.spec_pixels() == pixels@),
            pixels@.len() != nrows * ncols ==> (r matches Err(e) && e == ImageError::DimensionMismatch),
    {
        let len = pixels.len();
        if nrows == 0 || ncols == 0 {
            proof {
                assert(nrows as int * ncols as int == 0) by (nonlinear_arith)
                    requires nrows == 0 || ncols == 0;
            }
            if len == 0 {
                Ok(Image { nrows, ncols, pixels })
            } else {
                Err(ImageError::DimensionMismatch)
            }
        } else if nrows <= usize::MAX / ncols {
            proof {
                lemma_mul_div_bound(nrows as int, ncols as int, usize::MAX as int);
            }
            let n = nrows * ncols;
            if len == n {
                Ok(Image { nrows, ncols, pixels })
            } else {
                Err(ImageError::DimensionMismatch)
            }
        } else {
            proof {
                lemma_mul_div_bound(nrows as int, ncols as int, usize::MAX as int);
            }
            Err(ImageError::DimensionMismatch)
        }
    }

    /// Returns the number of rows in the image.
    pub fn rows(&self) -> (r: usize)
        ensures
            r == self.spec_rows(),
    {
        self.nrows
    }

    /// Returns the number of columns in the image.
    pub fn cols(&self) -> (r: usize)
        ensures
            r == self.spec_cols(),
    {
        self.ncols
    }

    /// Returns the pixel data as a flat row-major slice.
    pub fn as_slice(&self) -> (r: &[u8])
        ensures
            r@ == self.spec_pixels(),
    {
        self.pixels.as_slice()
    }

    /// Reads the sample at row `i`, column `j`. Indices must be in range.
    pub fn get(&self, i: usize, j: usize) -> (r: u8)
        requires
            self.wf(),
            i < self.spec_rows(),
            j < self.spec_cols(),
        ensures
            r == self.spec_at(i as int, j as int),
    {
        let n = self.pixels.len();
        proof {
            lemma_row_major_bound(i as int, j as int, self.spec_rows(), self.spec_cols());
            assert(i * self.spec_cols() + j < n);
        }
        let idx = i * self.ncols + j;
        self.pixels[idx]
    }

    /// Writes the sample at row `i`, column `j`. Indices must be in range;
    /// every other sample and the dimensions are unchanged.
    pub fn set(&mut self, i: usize, j: usize, value: u8)
        requires
            old(self).wf(),
            i < old(self).spec_rows(),
            j < old(self).spec_cols(),
        ensures
            final(self).wf(),
            final(self).spec_rows() == old(self).spec_rows(),
            final(self).spec_cols() == old(self).spec_cols(),
            final(self).spec_pixels() == old(self).spec_pixels().update(
                i * old(self).spec_cols() + j,
                value,
            ),
    {
        let n = self.pixels.len();
        proof {
            lemma_row_major_bound(i as int, j as int, self.spec_rows(), self.spec_cols());
            assert(i * self.spec_cols() + j < n);
        }
        let idx = i * self.ncols + j;
        self.pixels.set(idx, value);
    }

    /// Row count of the image scaled by `f`: `floor(rows * num / den)`.
    pub open spec fn spec_scaled_rows(&self, f: ScaleFactor) -> int {
        (self.spec_rows() * f.num) / (f.den as int)
    }

    /// Column count of the image scaled by `f`: `floor(cols * num / den)`.
    pub open spec fn spec_scaled_cols(&self, f: ScaleFactor) -> int {
        (self.spec_cols() * f.num) / (f.den as int)
    }

    /// The bilinear interpolation formula at destination pixel `(i, j)` for
    /// the factor `f`, in exact rational arithmetic.
    ///
    /// The destination maps back to the real source coordinate
    /// `x = i * den / num` with integer part `x0` and fractional part
    /// `rx / num` (likewise `y`, `y0`, `ry / num` along columns). The high
    /// neighbor index is the same base index clamped to the last row or
    /// column, `x1 = min(x0, rows - 1)`; that policy is part of the
    /// interface and deliberately kept. The four corner samples are averaged
    /// with the usual bilinear weights and the result, an exact rational
    /// with denominator `num * num`, is rounded half-up to an integer.
    pub open spec fn spec_scaled_at(&self, f: ScaleFactor, i: int, j: int) -> int {
        let n = f.num as int;
        let x0 = (i * f.den) / n;
        let y0 = (j * f.den) / n;
        let rx = (i * f.den) % n;
        let ry = (j * f.den) % n;
        let x1 = if x0 <= self.spec_rows() - 1 {
            x0
        } else {
            self.spec_rows() - 1
        };
        let y1 = if y0 <= self.spec_cols() - 1 {
            y0
        } else {
            self.spec_cols() - 1
        };
        let p00 = self.spec_at(x0, y0) as int;
        let p01 = self.spec_at(x0, y1) as int;
        let p10 = self.spec_at(x1, y0) as int;
        let p11 = self.spec_at(x1, y1) as int;
        let acc = p00 * ((n - ry) * (n - rx)) + p01 * (ry * (n - rx)) + p10 * ((n - ry) * rx)
            + p11 * (ry * rx);
        (2 * acc + n * n) / (2 * (n * n))
    }

    /// Computes one destination sample of the scaled image.
    fn scaled_sample(&self, factor: ScaleFactor, i: usize, j: usize) -> (r: u8)
        requires
            self.wf(),
            factor.wf(),
            (i as int) < self.spec_scaled_rows(factor),
            (j as int) < self.spec_scaled_cols(factor),
        ensures
            r as int == self.spec_scaled_at(factor, i as int, j as int),
    {
        let numw = factor.num as u128;
        let denw = factor.den as u128;
        proof {
            lemma_src_index_bound(i as int, factor.den as int, factor.num as int, self.spec_rows());
            lemma_src_index_bound(j as int, factor.den as int, factor.num as int, self.spec_cols());
            lemma_mul_le(i as int, factor.den as int, usize::MAX as int, u32::MAX as int);
            lemma_mul_le(j as int, factor.den as int, usize::MAX as int, u32::MAX as int);
            lemma_mod_division_less_than_divisor(i as int * factor.den as int, factor.num as int);
            lemma_mod_division_less_than_divisor(j as int * factor.den as int, factor.num as int);
        }
        let ai = (i as u128) * denw;
        let aj = (j as u128) * denw;
        let x0 = (ai / numw) as usize;
        let y0 = (aj / numw) as usize;
        let rx = ai % numw;
        let ry = aj % numw;
        let x1 = if x0 <= self.nrows - 1 {
            x0
        } else {
            self.nrows - 1
        };
        let y1 = if y0 <= self.ncols - 1 {
            y0
        } else {
            self.ncols - 1
        };
        let p00 = self.get(x0, y0) as u128;
        let p01 = self.get(x0, y1) as u128;
        let p10 = self.get(x1, y0) as u128;
        let p11 = self.get(x1, y1) as u128;
        let wx = numw - rx;
        let wy = numw - ry;
        proof {
            lemma_mul_le(wy as int, wx as int, u32::MAX as int, u32::MAX as int);
            lemma_mul_le(ry as int, wx as int, u32::MAX as int, u32::MAX as int);
            lemma_mul_le(wy as int, rx as int, u32::MAX as int, u32::MAX as int);
            lemma_mul_le(ry as int, rx as int, u32::MAX as int, u32::MAX as int);
            lemma_mul_le(p00 as int, (wy * wx) as int, 255, u32::MAX as int * u32::MAX as int);
            lemma_mul_le(p01 as int, (ry * wx) as int, 255, u32::MAX as int * u32::MAX as int);
            lemma_mul_le(p10 as int, (wy * rx) as int, 255, u32::MAX as int * u32::MAX as int);
            lemma_mul_le(p11 as int, (ry * rx) as int, 255, u32::MAX as int * u32::MAX as int);
            lemma_mul_le(numw as int, numw as int, u32::MAX as int, u32::MAX as int);
        }
        let acc = p00 * (wy * wx) + p01 * (ry * wx) + p10 * (wy * rx) + p11 * (ry * rx);
        let nn = numw * numw;
        proof {
            lemma_acc_bound(
                p00 as int,
                p01 as int,
                p10 as int,
                p11 as int,
                rx as int,
                ry as int,
                numw as int,
            );
            lemma_round_quotient_bounds(acc as int, numw as int);
            assert(1 <= (numw as int) * (numw as int)) by (nonlinear_arith)
                requires 1 <= numw as int;
        }
        let v = (2 * acc + nn) / (2 * nn);
        v as u8
    }

    /// Scales the image by the given rational factor using bilinear
    /// interpolation, producing a new, independently owned image.
    ///
    /// The result has exactly `floor(rows * num / den)` rows and
    /// `floor(cols * num / den)` columns, and every destination sample is
    /// the exact interpolation value described by `spec_scaled_at`. The
    /// source image is never mutated. The scaled dimensions must fit in
    /// memory, which every factor fitting the display of an ordinary
    /// machine satisfies.
    pub fn scale(&self, factor: ScaleFactor) -> (r: Image)
        requires
            self.wf(),
            factor.wf(),
            self.spec_scaled_rows(factor) <= usize::MAX,
            self.spec_scaled_cols(factor) <= usize::MAX,
            self.spec_scaled_rows(factor) * self.spec_scaled_cols(factor) <= usize::MAX,
        ensures
            r.wf(),
            r.spec_rows() == self.spec_scaled_rows(factor),
            r.spec_cols() == self.spec_scaled_cols(factor),
            forall|i: int, j: int|
                0 <= i < r.spec_rows() && 0 <= j < r.spec_cols() ==> r.spec_at(i, j) as int
                    == self.spec_scaled_at(factor, i, j),
    {
        let numw = factor.num as u128;
        let denw = factor.den as u128;
        proof {
            lemma_mul_le(self.spec_rows(), factor.num as int, usize::MAX as int, u32::MAX as int);
            lemma_mul_le(self.spec_cols(), factor.num as int, usize::MAX as int, u32::MAX as int);
        }
        let h = ((self.nrows as u128) * numw / denw) as usize;
        let w = ((self.ncols as u128) * numw / denw) as usize;
        let mut out: Vec<u8> = Vec::new();
        let mut i: usize = 0;
        while i < h
            invariant
                self.wf(),
                factor.wf(),
                h == self.spec_scaled_rows(factor),
                w == self.spec_scaled_cols(factor),
                h * w <= usize::MAX,
                i <= h,
                out@.len() == i * w,
                forall|a: int, b: int|
                    0 <= a < i && 0 <= b < w ==> #[trigger] out@[a * w + b] as int
                        == self.spec_scaled_at(factor, a, b),
            decreases h - i,
        {
            let mut j: usize = 0;
            while j < w
                invariant
                    self.wf(),
                    factor.wf(),
                    h == self.spec_scaled_rows(factor),
                    w == self.spec_scaled_cols(factor),
                    h * w <= usize::MAX,
                    i < h,
                    j <= w,
                    out@.len() == i * w + j,
                    forall|a: int, b: int|
                        0 <= a < i && 0 <= b < w ==> #[trigger] out@[a * w + b] as int
                            == self.spec_scaled_at(factor, a, b),
                    forall|b: int|
                        0 <= b < j ==> #[trigger] out@[i * w + b] as int == self.spec_scaled_at(
                            factor,
                            i as int,
                            b,
                        ),
                decreases w - j,
            {
                proof {
                    lemma_row_major_bound(i as int, j as int, h as int, w as int);
                }
                let v = self.scaled_sample(factor, i, j);
                out.push(v);
                proof {
                    assert forall|a: int, b: int|
                        0 <= a < i && 0 <= b < w implies #[trigger] out@[a * w + b] as int
                        == self.spec_scaled_at(factor, a, b) by {
                        lemma_row_major_bound(a, b, i as int, w as int);
                    }
                }
                j = j + 1;
            }
            proof {
                assert((i + 1) * w == i * w + w) by (nonlinear_arith);
                assert forall|a: int, b: int|
                    0 <= a < i + 1 && 0 <= b < w implies #[trigger] out@[a * w + b] as int
                    == self.spec_scaled_at(factor, a, b) by {
                    lemma_row_major_bound(a, b, (i + 1) as int, w as int);
                    if a == i {
                        assert(out@[i * w + b] as int == self.spec_scaled_at(factor, i as int, b));
                    }
                }
            }
            i = i + 1;
        }
        proof {
            lemma_mul_le(h as int, w as int, usize::MAX as int, usize::MAX as int);
        }
        Image { nrows: h, ncols: w, pixels: out }
    }
}

/// Rounding half-up an exact multiple `p` of the weight total `n * n` gives
/// back `p`.
proof fn lemma_round_exact(p: int, n: int)
    requires
        0 <= p,
        1 <= n,
    ensures
        (2 * (p * (n * n)) + n * n) / (2 * (n * n)) == p,
{
    assert(1 <= n * n) by (nonlinear_arith)
        requires 1 <= n;
    assert(2 * (p * (n * n)) + n * n == p * (2 * (n * n)) + n * n) by (nonlinear_arith);
    lemma_fundamental_div_mod_converse_div(
        2 * (p * (n * n)) + n * n,
        2 * (n * n),
        p,
        n * n,
    );
}

/// Round trip: an image built from a flat buffer returns, for every in-range
/// position, exactly the buffer element at the row-major offset.
pub proof fn lemma_round_trip(img: Image, pixels: Seq<u8>, i: int, j: int)
    requires
        img.wf(),
        img.spec_pixels() == pixels,
        0 <= i < img.spec_rows(),
        0 <= j < img.spec_cols(),
    ensures
        img.spec_at(i, j) == pixels[i * img.spec_cols() + j],
{
}

/// Scaling by a factor equal to one (`num == den`) keeps the dimensions and
/// reproduces every source sample exactly.
pub proof fn lemma_scale_identity(img: Image, f: ScaleFactor, i: int, j: int)
    requires
        img.wf(),
        f.wf(),
        f.num == f.den,
        0 <= i < img.spec_rows(),
        0 <= j < img.spec_cols(),
    ensures
        img.spec_scaled_rows(f) == img.spec_rows(),
        img.spec_scaled_cols(f) == img.spec_cols(),
        img.spec_scaled_at(f, i, j) == img.spec_at(i, j),
{
    let n = f.num as int;
    lemma_div_multiples_vanish(img.spec_rows(), n);
    lemma_div_multiples_vanish(img.spec_cols(), n);
    lemma_div_multiples_vanish(i, n);
    lemma_div_multiples_vanish(j, n);
    lemma_mod_multiples_basic(i, n);
    lemma_mod_multiples_basic(j, n);
    assert(i * f.den == n * i && i * f.den == i * n) by (nonlinear_arith)
        requires f.den == n;
    assert(j * f.den == n * j && j * f.den == j * n) by (nonlinear_arith)
        requires f.den == n;
    assert(img.spec_rows() * f.num == n * img.spec_rows()) by (nonlinear_arith)
        requires f.num == n;
    assert(img.spec_cols() * f.num == n * img.spec_cols()) by (nonlinear_arith)
        requires f.num == n;
    assert((i * f.den) / n == i);
    assert((j * f.den) / n == j);
    assert((i * f.den) % n == 0);
    assert((j * f.den) % n == 0);
    lemma_row_major_bound(i, j, img.spec_rows(), img.spec_cols());
    let p = img.spec_at(i, j) as int;
    assert(p * ((n - 0) * (n - 0)) + p * (0 * (n - 0)) + p * ((n - 0) * 0) + p * (0 * 0) == p * (n
        * n)) by (nonlinear_arith);
    lemma_round_exact(p, n);
}

/// Scaling an image whose samples all hold one value yields an image whose
/// samples all hold that same value, at the scaled dimensions.
pub proof fn lemma_scale_constant(img: Image, f: ScaleFactor, c: u8, i: int, j: int)
    requires
        img.wf(),
        f.wf(),
        forall|k: int| 0 <= k < img.spec_pixels().len() ==> img.spec_pixels()[k] == c,
        0 <= i < img.spec_scaled_rows(f),
        0 <= j < img.spec_scaled_cols(f),
    ensures
        img.spec_scaled_at(f, i, j) == c,
{
    let n = f.num as int;
    lemma_src_index_bound(i, f.den as int, n, img.spec_rows());
    lemma_src_index_bound(j, f.den as int, n, img.spec_cols());
    lemma_mod_division_less_than_divisor(i * f.den, n);
    lemma_mod_division_less_than_divisor(j * f.den, n);
    let x0 = (i * f.den) / n;
    let y0 = (j * f.den) / n;
    let rx = (i * f.den) % n;
    let ry = (j * f.den) % n;
    let x1 = if x0 <= img.spec_rows() - 1 {
        x0
    } else {
        img.spec_rows() - 1
    };
    let y1 = if y0 <= img.spec_cols() - 1 {
        y0
    } else {
        img.spec_cols() - 1
    };
    lemma_row_major_bound(x0, y0, img.spec_rows(), img.spec_cols());
    lemma_row_major_bound(x0, y1, img.spec_rows(), img.spec_cols());
    lemma_row_major_bound(x1, y0, img.spec_rows(), img.spec_cols());
    lemma_row_major_bound(x1, y1, img.spec_rows(), img.spec_cols());
    let p = c as int;
    assert(p * ((n - ry) * (n - rx)) + p * (ry * (n - rx)) + p * ((n - ry) * rx) + p * (ry * rx)
        == p * (n * n)) by (nonlinear_arith);
    lemma_round_exact(p, n);
}

} // verus!
