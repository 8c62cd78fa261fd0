use palace_prop::codec::thirtytwo::decode;
use palace_prop::error::PropError;

#[test]
fn bytes_are_r_g_b_a_in_order() {
    let image = decode(&[1, 2, 3, 4], 1, 1).unwrap();
    assert_eq!(image.pixel(0, 0), Some([1, 2, 3, 4]));
}

#[test]
fn pixels_are_row_major() {
    let data = [1, 0, 0, 0, 2, 0, 0, 0, 3, 0, 0, 0, 4, 0, 0, 0];
    let image = decode(&data, 2, 2).unwrap();
    assert_eq!(image.pixel(0, 0).unwrap()[0], 1);
    assert_eq!(image.pixel(1, 0).unwrap()[0], 2);
    assert_eq!(image.pixel(0, 1).unwrap()[0], 3);
    assert_eq!(image.pixel(1, 1).unwrap()[0], 4);
}

#[test]
fn alpha_is_a_full_byte() {
    let image = decode(&[0, 0, 0, 128], 1, 1).unwrap();
    assert_eq!(image.pixel(0, 0), Some([0, 0, 0, 128]));
}

#[test]
fn thirtytwo_a_short_payload_is_an_error() {
    assert!(matches!(
        decode(&[0; 3], 1, 1),
        Err(PropError::DecompressedTooShort { .. })
    ));
}
