use palace_prop::editor::tools::paint::{brush_stroke, clear_pixels, erase_stroke, pick_color};
use palace_prop::image::PropImage;

fn opaque(width: u32, height: u32) -> PropImage {
    PropImage::from_rgba(width, height, vec![9; (width * height * 4) as usize]).unwrap()
}

#[test]
fn a_click_with_a_size_one_brush_paints_exactly_one_pixel() {
    let image = PropImage::transparent(4, 3);
    let painted = brush_stroke(&image, (1, 1), (1, 1), [10, 20, 30, 40], 1).unwrap();
    for y in 0..3 {
        for x in 0..4 {
            let expected = if (x, y) == (1, 1) { [10, 20, 30, 255] } else { [0, 0, 0, 0] };
            assert_eq!(pick_color(&painted, x, y), Some(expected), "pixel ({x},{y})");
        }
    }
}

#[test]
fn a_drag_stamps_every_point_of_the_line() {
    let image = PropImage::transparent(5, 1);
    let painted = brush_stroke(&image, (0, 0), (4, 0), [1, 2, 3, 4], 1).unwrap();
    for x in 0..5 {
        assert_eq!(pick_color(&painted, x, 0), Some([1, 2, 3, 255]));
    }
    let diagonal = brush_stroke(&PropImage::transparent(3, 3), (0, 0), (2, 2), [5, 5, 5, 5], 1).unwrap();
    assert_eq!(pick_color(&diagonal, 1, 1), Some([5, 5, 5, 255]));
    assert_eq!(pick_color(&diagonal, 1, 0), Some([0, 0, 0, 0]));
}

#[test]
fn a_size_two_stamp_covers_the_centre_and_the_cells_above_left() {
    let image = PropImage::transparent(4, 4);
    let painted = brush_stroke(&image, (2, 2), (2, 2), [7, 7, 7, 7], 2).unwrap();
    let covered: Vec<(u32, u32)> = (0..4)
        .flat_map(|y| (0..4).map(move |x| (x, y)))
        .filter(|&(x, y)| pick_color(&painted, x, y) == Some([7, 7, 7, 255]))
        .collect();
    assert_eq!(covered, vec![(1, 1), (2, 1), (1, 2), (2, 2)]);
}

#[test]
fn the_eraser_clears_alpha_and_off_canvas_points_are_clipped() {
    let image = opaque(3, 3);
    let erased = erase_stroke(&image, (-5, 1), (1, 1), 1).unwrap();
    assert_eq!(pick_color(&erased, 0, 1), Some([0, 0, 0, 0]));
    assert_eq!(pick_color(&erased, 1, 1), Some([0, 0, 0, 0]));
    assert_eq!(pick_color(&erased, 2, 1), Some([9, 9, 9, 9]));
    let far = erase_stroke(&image, (100, 100), (200, 100), 3).unwrap();
    assert_eq!(far.as_rgba(), image.as_rgba());
}

#[test]
fn brush_sizes_are_clamped() {
    let image = PropImage::transparent(2, 2);
    let zero = brush_stroke(&image, (0, 0), (0, 0), [1, 1, 1, 1], 0).unwrap();
    assert_eq!(pick_color(&zero, 1, 1), Some([0, 0, 0, 0]));
    let huge = brush_stroke(&image, (0, 0), (0, 0), [1, 1, 1, 1], 1000).unwrap();
    assert_eq!(huge.as_rgba(), &[1, 1, 1, 255].repeat(4)[..]);
    assert_eq!(clear_pixels(&huge).as_rgba(), &[0u8; 16][..]);
}
