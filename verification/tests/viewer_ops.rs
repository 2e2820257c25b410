use tiffview::viewer::navigate;

#[test]
fn navigate_forward_wraps() {
    assert_eq!(navigate(4, 5, 1), 0);
    assert_eq!(navigate(2, 5, 7), 4);
}

#[test]
fn navigate_backward_wraps() {
    assert_eq!(navigate(0, 5, -1), 4);
    assert_eq!(navigate(1, 3, -7), 0);
}

#[test]
fn navigate_zero_delta_stays() {
    assert_eq!(navigate(2, 5, 0), 2);
}

#[test]
fn navigate_single_page_always_zero() {
    assert_eq!(navigate(0, 1, 1), 0);
    assert_eq!(navigate(0, 1, -1), 0);
}
