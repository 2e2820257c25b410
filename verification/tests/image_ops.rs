use tiffview::image::Image;
use tiffview::image::ImageError;
use tiffview::image::ScaleFactor;

#[test]
fn new_image_is_zero_filled() {
    let img = Image::new(2, 3);
    assert_eq!(img.rows(), 2);
    assert_eq!(img.cols(), 3);
    assert_eq!(img.as_slice(), &[0u8; 6]);
}

#[test]
fn new_image_zero_sized() {
    let img = Image::new(0, 7);
    assert_eq!(img.rows(), 0);
    assert_eq!(img.cols(), 7);
    assert_eq!(img.as_slice().len(), 0);
}

#[test]
fn from_vec_round_trip_get() {
    let v = vec![11u8, 22, 33, 44, 55, 66];
    let img = Image::from_vec(2, 3, v.clone()).unwrap();
    for i in 0..2 {
        for j in 0..3 {
            assert_eq!(img.get(i, j), v[i * 3 + j]);
        }
    }
}

#[test]
fn from_vec_dimension_mismatch() {
    let r = Image::from_vec(2, 3, vec![1u8, 2, 3, 4, 5]);
    assert_eq!(r.unwrap_err(), ImageError::DimensionMismatch);
}

#[test]
fn from_vec_zero_dimension_rejects_nonempty() {
    let r = Image::from_vec(0, 3, vec![1u8]);
    assert_eq!(r.unwrap_err(), ImageError::DimensionMismatch);
}

#[test]
fn set_then_get() {
    let mut img = Image::new(3, 3);
    img.set(1, 2, 99);
    assert_eq!(img.get(1, 2), 99);
    assert_eq!(img.get(1, 1), 0);
    assert_eq!(img.get(2, 2), 0);
}

#[test]
fn scale_identity_reproduces_image() {
    let v = vec![1u8, 2, 3, 4, 5, 6];
    let img = Image::from_vec(2, 3, v.clone()).unwrap();
    let s = img.scale(ScaleFactor { num: 1, den: 1 });
    assert_eq!(s.rows(), 2);
    assert_eq!(s.cols(), 3);
    assert_eq!(s.as_slice(), v.as_slice());
    let s4 = img.scale(ScaleFactor { num: 4, den: 4 });
    assert_eq!(s4.rows(), 2);
    assert_eq!(s4.cols(), 3);
    assert_eq!(s4.as_slice(), v.as_slice());
}

#[test]
fn scale_dimensions_floor_independently() {
    let img = Image::new(3, 5);
    let s = img.scale(ScaleFactor { num: 1, den: 2 });
    assert_eq!(s.rows(), 1);
    assert_eq!(s.cols(), 2);
}

#[test]
fn scale_constant_image_by_two() {
    let img = Image::from_vec(2, 2, vec![7u8, 7, 7, 7]).unwrap();
    let s = img.scale(ScaleFactor { num: 2, den: 1 });
    assert_eq!(s.rows(), 4);
    assert_eq!(s.cols(), 4);
    assert_eq!(s.as_slice(), &[7u8; 16]);
}

#[test]
fn scale_clamp_policy_samples_base_neighborhood() {
    // With the clamped-base neighbor policy, every destination pixel takes
    // the source sample at the floored back-mapped coordinate.
    let img = Image::from_vec(2, 2, vec![10u8, 20, 30, 40]).unwrap();
    let s = img.scale(ScaleFactor { num: 3, den: 2 });
    assert_eq!(s.rows(), 3);
    assert_eq!(s.cols(), 3);
    assert_eq!(s.as_slice(), &[10u8, 10, 20, 10, 10, 20, 30, 30, 40]);
}

#[test]
fn scale_down_to_empty() {
    let img = Image::from_vec(1, 2, vec![5u8, 9]).unwrap();
    let s = img.scale(ScaleFactor { num: 1, den: 3 });
    assert_eq!(s.rows(), 0);
    assert_eq!(s.cols(), 0);
    assert_eq!(s.as_slice().len(), 0);
}
