use palace_prop::codec::scale;
use palace_prop::codec::sixteen::decode;
use palace_prop::error::PropError;

fn one(data: &[u8]) -> [u8; 4] {
    decode(data, 1, 1).unwrap().pixel(0, 0).unwrap()
}

#[test]
fn full_scale_fields_reach_255() {
    assert_eq!(one(&[0xff, 0xff]), [255, 255, 255, 255]);
}

#[test]
fn alpha_bit_zero_is_transparent() {
    assert_eq!(one(&[0xff, 0xfe]), [255, 255, 255, 0]);
}

#[test]
fn red_is_the_high_five_bits_of_the_first_byte() {
    assert_eq!(one(&[0x08, 0x00]), [scale(1, 31), 0, 0, 0]);
}

#[test]
fn green_straddles_the_byte_boundary() {
    assert_eq!(one(&[0x00, 0x40]), [0, scale(1, 31), 0, 0]);
}

#[test]
fn blue_is_bit_one_of_the_second_byte() {
    assert_eq!(one(&[0x00, 0x02]), [0, 0, scale(1, 31), 0]);
}

#[test]
fn sixteen_a_short_payload_is_an_error() {
    assert!(matches!(
        decode(&[0x00], 1, 1),
        Err(PropError::DecompressedTooShort { .. })
    ));
}

#[test]
fn every_word_decodes_to_one_pixel() {
    for word in [0x0000u16, 0x0001, 0x7bef, 0x8410, 0xfffe, 0xffff] {
        assert!(decode(&word.to_be_bytes(), 1, 1).is_ok());
    }
}
