use sdf_triangle::fragment::{normalize, NormalizedCoord};
use sdf_triangle::viewport::Viewport;

#[test]
fn centre_of_square_viewport_is_origin() {
    let v = Viewport::new(768, 768);
    let p = normalize(768, 768, v);
    assert_eq!(p, NormalizedCoord { x: 0, y: 0, den: 768 });
}

#[test]
fn centre_of_wide_viewport_is_origin() {
    let p = normalize(1024, 768, Viewport::new(1024, 768));
    assert_eq!((p.x, p.y), (0, 0));
}

#[test]
fn pixel_centres_are_scaled_by_height() {
    let v = Viewport::new(1024, 768);
    // the first pixel's centre (0.5, 0.5) maps to (1 - 1024, 1 - 768) / 768
    let p = normalize(1, 1, v);
    assert_eq!(p, NormalizedCoord { x: -1023, y: -767, den: 768 });
    // the right edge of the window is at x = 1024 / 768
    let q = normalize(2048, 768, v);
    assert_eq!(q, NormalizedCoord { x: 1024, y: 0, den: 768 });
}
