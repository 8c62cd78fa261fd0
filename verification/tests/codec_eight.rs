use palace_prop::codec::eight::decode;
use palace_prop::error::PropError;
use palace_prop::palette;

fn argb_of(index: u8) -> [u8; 4] {
    let word = palette::lookup(index);
    [
        (word >> 16) as u8,
        (word >> 8) as u8,
        word as u8,
        (word >> 24) as u8,
    ]
}

#[test]
fn a_single_opaque_row_becomes_the_first_image_row() {
    let payload = [0x04, 0x01, 0x01, 0x01, 0x01, 0x22, 0x02, 0x02];
    let image = decode(&payload, 4, 2).unwrap();
    assert_eq!(image.pixel(0, 0), Some(argb_of(1)));
    assert_eq!(image.pixel(3, 0), Some(argb_of(1)));
    assert_eq!(image.pixel(0, 1), Some([0, 0, 0, 0]));
    assert_eq!(image.pixel(2, 1), Some(argb_of(2)));
}

#[test]
fn a_zero_control_byte_is_a_runaway_error_not_a_hang() {
    assert_eq!(decode(&[0x00], 4, 1), Err(PropError::RleRunaway { row: 0 }));
}

#[test]
fn a_row_that_overruns_its_width_is_an_error() {
    assert_eq!(
        decode(&[0x14, 1, 2, 3, 4], 4, 1),
        Err(PropError::RleRowOverflow { row: 0 })
    );
}

#[test]
fn a_row_that_underruns_trips_the_runaway_guard() {
    assert_eq!(
        decode(&[0x02, 1, 2], 4, 1),
        Err(PropError::RleRunaway { row: 0 })
    );
}

#[test]
fn trailing_bytes_after_the_last_row_are_ignored() {
    let payload = [0x04, 1, 1, 1, 1, 0xff, 0xff, 0xff];
    assert!(decode(&payload, 4, 1).is_ok());
}

#[test]
fn a_payload_ending_inside_the_final_pixel_run_is_tolerated() {
    let image = decode(&[0x04, 1, 2], 4, 1).unwrap();
    assert_eq!(image.pixel(0, 0), Some(argb_of(1)));
    assert_eq!(image.pixel(1, 0), Some(argb_of(2)));
    assert_eq!(image.pixel(2, 0), Some([0, 0, 0, 0]));
    assert_eq!(image.pixel(3, 0), Some([0, 0, 0, 0]));
}

#[test]
fn a_missing_control_byte_is_still_an_error() {
    assert!(matches!(
        decode(&[0x02, 1, 2], 4, 1),
        Err(PropError::RleRunaway { row: 0 })
    ));
}

#[test]
fn a_zero_control_byte_is_skipped_not_fatal_when_the_row_can_finish() {
    let image = decode(&[0x00, 0x04, 1, 2, 3, 4], 4, 1).unwrap();
    assert_eq!(image.pixel(3, 0), Some(argb_of(4)));
}

#[test]
fn the_width_of_the_payload_does_not_leak_into_the_next_row() {
    let payload = [0x22, 0x05, 0x05, 0x04, 0x07, 0x07, 0x07, 0x07];
    let image = decode(&payload, 4, 2).unwrap();
    assert_eq!(image.pixel(2, 0), Some(argb_of(5)));
    assert_eq!(image.pixel(0, 0), Some([0, 0, 0, 0]));
    assert_eq!(image.pixel(0, 1), Some(argb_of(7)));
    assert_eq!(image.pixel(3, 1), Some(argb_of(7)));
}

#[test]
fn a_zero_width_image_reads_no_bytes() {
    let image = decode(&[], 0, 3).unwrap();
    assert_eq!((image.width(), image.height()), (0, 3));
    assert!(image.as_rgba().is_empty());
}

#[test]
fn the_runaway_guard_names_the_row_it_stopped_in() {
    // Row 0 completes; row 1 stalls on the zeroes past the end.
    assert_eq!(
        decode(&[0x02, 9, 9], 2, 2),
        Err(PropError::RleRunaway { row: 1 })
    );
}
