use palace_prop::editor::tools::fill::flood_fill_within;
use palace_prop::image::PropImage;

fn image(width: u32, height: u32, pixels: &[[u8; 4]]) -> PropImage {
    PropImage::from_rgba(width, height, pixels.concat()).unwrap()
}

const W: [u8; 4] = [255, 255, 255, 255];
const K: [u8; 4] = [0, 0, 0, 255];
const R: [u8; 4] = [255, 0, 0, 255];

#[test]
fn the_fill_stays_inside_its_4_connected_region() {
    // A white region split by a black wall; the diagonal does not connect.
    let img = image(3, 3, &[W, K, W, W, K, W, K, W, W]);
    let out = flood_fill_within(&img, 0, 0, R, 0).unwrap();
    assert_eq!(out.pixel(0, 0), Some(R));
    assert_eq!(out.pixel(0, 1), Some(R));
    assert_eq!(out.pixel(1, 0), Some(K));
    assert_eq!(out.pixel(2, 0), Some(W));
    assert_eq!(out.pixel(1, 2), Some(W));
    assert_eq!(out.pixel(0, 2), Some(K));
}

#[test]
fn the_limit_admits_close_colours() {
    let near = [250, 250, 250, 255];
    let img = image(3, 1, &[W, near, W]);
    let strict = flood_fill_within(&img, 0, 0, R, 4).unwrap();
    assert_eq!(strict.pixel(1, 0), Some(near));
    assert_eq!(strict.pixel(2, 0), Some(W));
    let loose = flood_fill_within(&img, 0, 0, R, 5).unwrap();
    assert_eq!(loose.pixel(1, 0), Some(R));
    assert_eq!(loose.pixel(2, 0), Some(R));
}

#[test]
fn a_seed_outside_the_image_changes_nothing() {
    let img = image(2, 1, &[W, K]);
    let out = flood_fill_within(&img, 5, 0, R, 255).unwrap();
    assert_eq!(out.as_rgba(), img.as_rgba());
}
