//! Dispatch of decoded page buffers to the normalization paths, and the
//! per-page pipeline that turns a decoded page into a grayscale image.

use vstd::prelude::*;

use crate::image::Image;
use crate::image::ImageError;
use crate::normalize::as_ints;
use crate::normalize::as_ints_64;
use crate::normalize::norm_round;
use crate::normalize::norm_trunc;
use crate::normalize::seq_max;
use crate::normalize::seq_min;
use crate::normalize::to_u8_fixed;
use crate::normalize::to_u8_int;

verus! {

/// One decoded page's samples, tagged with their source encoding.
///
/// The integer encodings carry their raw sample values. The two floating
/// encodings carry samples in the signed fixed-point representation
/// described in `normalize`: an order-preserving affine image of the
/// floating values, prepared by the caller at the decoding boundary.
pub enum SampleBuffer {
    /// Unsigned 8-bit samples; already in the output domain.
    U8(Vec<u8>),
    /// Unsigned 16-bit samples.
    U16(Vec<u16>),
    /// Unsigned 32-bit samples.
    U32(Vec<u32>),
    /// Unsigned 64-bit samples.
    U64(Vec<u64>),
    /// Signed 8-bit samples.
    I8(Vec<i8>),
    /// Signed 16-bit samples.
    I16(Vec<i16>),
    /// Signed 32-bit samples.
    I32(Vec<i32>),
    /// Signed 64-bit samples.
    I64(Vec<i64>),
    /// 32-bit floating samples, in fixed-point representation.
    F32(Vec<i64>),
    /// 64-bit floating samples, in fixed-point representation.
    F64(Vec<i64>),
}

impl SampleBuffer {
    /// The mathematical values of the samples, in order.
    pub open spec fn samples(&self) -> Seq<int> {
        match self {
            SampleBuffer::U8(b) => b@.map(|k: int, v: u8| v as int),
            SampleBuffer::U16(b) => b@.map(|k: int, v: u16| v as int),
            SampleBuffer::U32(b) => b@.map(|k: int, v: u32| v as int),
            SampleBuffer::U64(b) => b@.map(|k: int, v: u64| v as int),
            SampleBuffer::I8(b) => b@.map(|k: int, v: i8| v as int),
            SampleBuffer::I16(b) => b@.map(|k: int, v: i16| v as int),
            SampleBuffer::I32(b) => b@.map(|k: int, v: i32| v as int),
            SampleBuffer::I64(b) => as_ints_64(b@),
            SampleBuffer::F32(b) => as_ints_64(b@),
            SampleBuffer::F64(b) => as_ints_64(b@),
        }
    }

    /// Whether the tag is a floating encoding (normalized with rounding).
    pub open spec fn is_float(&self) -> bool {
        self is F32 || self is F64
    }
}

/// The 8-bit value the dispatcher produces at position `k` of a page:
/// native unsigned 8-bit samples pass through unchanged, the other integer
/// encodings are normalized with truncation, and the floating encodings are
/// normalized with rounding.
pub open spec fn spec_page_byte(page: SampleBuffer, k: int) -> int {
    let s = page.samples();
    if page is U8 {
        s[k]
    } else if page.is_float() {
        norm_round(s[k], seq_min(s), seq_max(s))
    } else {
        norm_trunc(s[k], seq_min(s), seq_max(s))
    }
}

/// Widens unsigned 16-bit samples for the integer normalization path.
fn widen_u16(b: &Vec<u16>) -> (r: Vec<i128>)
    ensures
        r@.len() == b@.len(),
        forall|k: int| 0 <= k < b@.len() ==> #[trigger] r@[k] as int == b@[k] as int,
{
    let mut r: Vec<i128> = Vec::new();
    let mut k: usize = 0;
    while k < b.len()
        invariant
            k <= b@.len(),
            r@.len() == k,
            forall|t: int| 0 <= t < k ==> #[trigger] r@[t] as int == b@[t] as int,
        decreases b@.len() - k,
    {
        r.push(b[k] as i128);
        k = k + 1;
    }
    r
}

/// Widens unsigned 32-bit samples for the integer normalization path.
fn widen_u32(b: &Vec<u32>) -> (r: Vec<i128>)
    ensures
        r@.len() == b@.len(),
        forall|k: int| 0 <= k < b@.len() ==> #[trigger] r@[k] as int == b@[k] as int,
{
    let mut r: Vec<i128> = Vec::new();
    let mut k: usize = 0;
    while k < b.len()
        invariant
            k <= b@.len(),
            r@.len() == k,
            forall|t: int| 0 <= t < k ==> #[trigger] r@[t] as int == b@[t] as int,
        decreases b@.len() - k,
    {
        r.push(b[k] as i128);
        k = k + 1;
    }
    r
}

/// Widens unsigned 64-bit samples for the integer normalization path.
fn widen_u64(b: &Vec<u64>) -> (r: Vec<i128>)
    ensures
        r@.len() == b@.len(),
        forall|k: int| 0 <= k < b@.len() ==> #[trigger] r@[k] as int == b@[k] as int,
{
    let mut r: Vec<i128> = Vec::new();
    let mut k: usize = 0;
    while k < b.len()
        invariant
            k <= b@.len(),
            r@.len() == k,
            forall|t: int| 0 <= t < k ==> #[trigger] r@[t] as int == b@[t] as int,
        decreases b@.len() - k,
    {
        r.push(b[k] as i128);
        k = k + 1;
    }
    r
}

/// Widens signed 8-bit samples for the integer normalization path.
fn widen_i8(b: &Vec<i8>) -> (r: Vec<i128>)
    ensures
        r@.len() == b@.len(),
        forall|k: int| 0 <= k < b@.len() ==> #[trigger] r@[k] as int == b@[k] as int,
{
    let mut r: Vec<i128> = Vec::new();
    let mut k: usize = 0;
    while k < b.len()
        invariant
            k <= b@.len(),
            r@.len() == k,
            forall|t: int| 0 <= t < k ==> #[trigger] r@[t] as int == b@[t] as int,
        decreases b@.len() - k,
    {
        r.push(b[k] as i128);
        k = k + 1;
    }
    r
}

/// Widens signed 16-bit samples for the integer normalization path.
fn widen_i16(b: &Vec<i16>) -> (r: Vec<i128>)
    ensures
        r@.len() == b@.len(),
        forall|k: int| 0 <= k < b@.len() ==> #[trigger] r@[k] as int == b@[k] as int,
{
    let mut r: Vec<i128> = Vec::new();
    let mut k: usize = 0;
    while k < b.len()
        invariant
            k <= b@.len(),
            r@.len() == k,
            forall|t: int| 0 <= t < k ==> #[trigger] r@[t] as int == b@[t] as int,
        decreases b@.len() - k,
    {
        r.push(b[k] as i128);
        k = k + 1;
    }
    r
}

/// Widens signed 32-bit samples for the integer normalization path.
fn widen_i32(b: &Vec<i32>) -> (r: Vec<i128>)
    ensures
        r@.len() == b@.len(),
        forall|k: int| 0 <= k < b@.len() ==> #[trigger] r@[k] as int == b@[k] as int,
{
    let mut r: Vec<i128> = Vec::new();
    let mut k: usize = 0;
    while k < b.len()
        invariant
            k <= b@.len(),
            r@.len() == k,
            forall|t: int| 0 <= t < k ==> #[trigger] r@[t] as int == b@[t] as int,
        decreases b@.len() - k,
    {
        r.push(b[k] as i128);
        k = k + 1;
    }
    r
}

/// Widens signed 64-bit samples for the integer normalization path.
fn widen_i64(b: &Vec<i64>) -> (r: Vec<i128>)
    ensures
        r@.len() == b@.len(),
        forall|k: int| 0 <= k < b@.len() ==> #[trigger] r@[k] as int == b@[k] as int,
{
    let mut r: Vec<i128> = Vec::new();
    let mut k: usize = 0;
    while k < b.len()
        invariant
            k <= b@.len(),
            r@.len() == k,
            forall|t: int| 0 <= t < k ==> #[trigger] r@[t] as int == b@[t] as int,
        decreases b@.len() - k,
    {
        r.push(b[k] as i128);
        k = k + 1;
    }
    r
}

/// Converts one decoded page to flat 8-bit grayscale samples, routing the
/// buffer to the normalization path that its tag selects.
pub fn page_to_u8(page: SampleBuffer) -> (r: Vec<u8>)
    ensures
        r@.len() == page.samples().len(),
        forall|k: int| 0 <= k < r@.len() ==> #[trigger] r@[k] as int == spec_page_byte(page, k),
{
    match page {
        SampleBuffer::U8(b) => b,
        SampleBuffer::U16(b) => {
            let w = widen_u16(&b);
            let r = to_u8_int(&w);
            proof {
                let ghost sb = SampleBuffer::U16(b);
                assert(as_ints(w@) =~= sb.samples());
            }
            r
        },
        SampleBuffer::U32(b) => {
            let w = widen_u32(&b);
            let r = to_u8_int(&w);
            proof {
                let ghost sb = SampleBuffer::U32(b);
                assert(as_ints(w@) =~= sb.samples());
            }
            r
        },
        SampleBuffer::U64(b) => {
            let w = widen_u64(&b);
            let r = to_u8_int(&w);
            proof {
                let ghost sb = SampleBuffer::U64(b);
                assert(as_ints(w@) =~= sb.samples());
            }
            r
        },
        SampleBuffer::I8(b) => {
            let w = widen_i8(&b);
            let r = to_u8_int(&w);
            proof {
                let ghost sb = SampleBuffer::I8(b);
                assert(as_ints(w@) =~= sb.samples());
            }
            r
        },
        SampleBuffer::I16(b) => {
            let w = widen_i16(&b);
            let r = to_u8_int(&w);
            proof {
                let ghost sb = SampleBuffer::I16(b);
                assert(as_ints(w@) =~= sb.samples());
            }
            r
        },
        SampleBuffer::I32(b) => {
            let w = widen_i32(&b);
            let r = to_u8_int(&w);
            proof {
                let ghost sb = SampleBuffer::I32(b);
                assert(as_ints(w@) =~= sb.samples());
            }
            r
        },
        SampleBuffer::I64(b) => {
            let w = widen_i64(&b);
            let r = to_u8_int(&w);
            proof {
                let ghost sb = SampleBuffer::I64(b);
                assert(as_ints(w@) =~= sb.samples());
            }
            r
        },
        SampleBuffer::F32(b) => to_u8_fixed(&b),
        SampleBuffer::F64(b) => to_u8_fixed(&b),
    }
}

/// Converts one decoded page to a grayscale image with the page's declared
/// dimensions: dispatch the samples to their normalization path, then build
/// the image. Succeeds exactly when the sample count equals `nrows * ncols`.
pub fn page_to_image(nrows: usize, ncols: usize, page: SampleBuffer) -> (r: Result<
    Image,
    ImageError,
>)
    ensures
        page.samples().len() == nrows * ncols ==> (r matches Ok(img)
            && img.wf()
            && img.spec_rows() == nrows
            && img.spec_cols() == ncols
            && forall|k: int|
                0 <= k < img.spec_pixels().len() ==> #[trigger] img.spec_pixels()[k] as int
                    == spec_page_byte(page, k)),
        page.samples().len() != nrows * ncols ==> (r matches Err(e) && e
            == ImageError::DimensionMismatch),
{
    let bytes = page_to_u8(page);
    Image::from_vec(nrows, ncols, bytes)
}

} // verus!
