use tiffview::dispatch::page_to_image;
use tiffview::dispatch::page_to_u8;
use tiffview::dispatch::SampleBuffer;
use tiffview::image::ImageError;
use tiffview::normalize::to_u8_fixed;
use tiffview::normalize::to_u8_int;

#[test]
fn empty_int_buffer_normalizes_to_empty() {
    let r = to_u8_int(&Vec::new());
    assert_eq!(r.len(), 0);
}

#[test]
fn empty_fixed_buffer_normalizes_to_empty() {
    let r = to_u8_fixed(&Vec::new());
    assert_eq!(r.len(), 0);
}

#[test]
fn constant_int_buffer_normalizes_to_zeros() {
    let r = to_u8_int(&vec![5i128, 5, 5, 5]);
    assert_eq!(r, vec![0u8, 0, 0, 0]);
}

#[test]
fn constant_fixed_buffer_normalizes_to_zeros() {
    let r = to_u8_fixed(&vec![-3i64, -3]);
    assert_eq!(r, vec![0u8, 0]);
}

#[test]
fn int_ramp_truncates_midpoint() {
    // min = 10 maps to 0, max = 30 to 255; the midpoint rescales to 127.5
    // and the integer path truncates, giving 127.
    let r = to_u8_int(&vec![10i128, 20, 30]);
    assert_eq!(r, vec![0u8, 127, 255]);
}

#[test]
fn signed_8bit_page_normalizes_like_ramp() {
    let r = page_to_u8(SampleBuffer::I8(vec![10i8, 20, 30]));
    assert_eq!(r, vec![0u8, 127, 255]);
}

#[test]
fn fixed_ramp_rounds_midpoint() {
    // Fixed-point image of the floating buffer [1.0, 2.0, 3.0] at scale
    // 2^32: the midpoint rescales to 127.5 and the floating path rounds
    // half-up, giving 128.
    let r = to_u8_fixed(&vec![0i64, 2147483648, 4294967296]);
    assert_eq!(r, vec![0u8, 128, 255]);
}

#[test]
fn float_page_via_fixed_point_conversion() {
    // The conversion a decoding boundary applies to floating samples:
    // map [min, max] onto [0, 2^32] and round each sample.
    let samples = [1.0f64, 2.0, 3.0];
    let mn = 1.0f64;
    let span = 2.0f64;
    let fixed: Vec<i64> = samples
        .iter()
        .map(|v| ((v - mn) / span * 4294967296.0).round() as i64)
        .collect();
    let r = page_to_u8(SampleBuffer::F64(fixed));
    assert_eq!(r, vec![0u8, 128, 255]);
}

#[test]
fn u8_page_passes_through_unchanged() {
    let r = page_to_u8(SampleBuffer::U8(vec![3u8, 200, 7]));
    assert_eq!(r, vec![3u8, 200, 7]);
}

#[test]
fn u16_page_maps_extremes() {
    let r = page_to_u8(SampleBuffer::U16(vec![100u16, 900, 500]));
    assert_eq!(r[0], 0);
    assert_eq!(r[1], 255);
    assert_eq!(r[2], 127);
}

#[test]
fn i64_page_with_negative_samples() {
    let r = page_to_u8(SampleBuffer::I64(vec![-50i64, 50]));
    assert_eq!(r, vec![0u8, 255]);
}

#[test]
fn u64_page_with_large_samples() {
    let r = page_to_u8(SampleBuffer::U64(vec![u64::MAX, 0, u64::MAX]));
    assert_eq!(r, vec![255u8, 0, 255]);
}

#[test]
fn page_to_image_builds_page() {
    let img = page_to_image(2, 2, SampleBuffer::I16(vec![0i16, 10, 20, 40])).unwrap();
    assert_eq!(img.rows(), 2);
    assert_eq!(img.cols(), 2);
    // span 40: 0 -> 0, 10 -> 63 (63.75 truncated), 20 -> 127, 40 -> 255
    assert_eq!(img.as_slice(), &[0u8, 63, 127, 255]);
}

#[test]
fn page_to_image_rejects_bad_dimensions() {
    let r = page_to_image(2, 2, SampleBuffer::I16(vec![0i16, 10, 20]));
    assert_eq!(r.unwrap_err(), ImageError::DimensionMismatch);
}
