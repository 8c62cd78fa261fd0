use palace_prop::codec::scale;
use palace_prop::codec::twenty::decode;
use palace_prop::error::PropError;

fn group(bytes: [u8; 5]) -> [[u8; 4]; 2] {
    let image = decode(&bytes, 2, 1).unwrap();
    [image.pixel(0, 0).unwrap(), image.pixel(1, 0).unwrap()]
}

#[test]
fn twenty_all_ones_is_white_opaque() {
    assert_eq!(group([0xff; 5]), [[255, 255, 255, 255]; 2]);
}

#[test]
fn twenty_all_zeroes_is_black_transparent() {
    assert_eq!(group([0x00; 5]), [[0, 0, 0, 0]; 2]);
}

#[test]
fn red_zero_is_the_high_six_bits_of_byte_zero() {
    let [p0, _] = group([0x04, 0x00, 0x00, 0x00, 0x00]);
    assert_eq!(p0, [scale(1, 63), 0, 0, 0]);
}

#[test]
fn green_zero_straddles_bytes_zero_and_one() {
    let [p0, _] = group([0x00, 0x10, 0x00, 0x00, 0x00]);
    assert_eq!(p0, [0, scale(1, 63), 0, 0]);
    let [p0, _] = group([0x01, 0x00, 0x00, 0x00, 0x00]);
    assert_eq!(p0, [0, scale(16, 63), 0, 0]);
}

#[test]
fn alpha_zero_uses_the_two_bits_of_byte_two() {
    for (bits, expected) in [(1u8, 85u8), (2, 170), (3, 255)] {
        let [p0, _] = group([0x00, 0x00, bits << 4, 0x00, 0x00]);
        assert_eq!(p0[3], expected);
    }
}

#[test]
fn the_second_pixel_reads_byte_four_for_blue_and_alpha() {
    let [_, p1] = group([0x00, 0x00, 0x00, 0x00, 0x0d]);
    assert_eq!(p1, [0, 0, scale(3, 63), 85]);
}

#[test]
fn every_group_bits_are_claimed_exactly_once() {
    for byte in 0..5usize {
        for bit in 0..8u32 {
            let mut bytes = [0u8; 5];
            bytes[byte] = 1 << bit;
            let [p0, p1] = group(bytes);
            let changed = [p0, p1]
                .iter()
                .flatten()
                .filter(|channel| **channel != 0)
                .count();
            assert!(
                changed == 1,
                "byte {byte} bit {bit} touched {changed} channels: {p0:?} {p1:?}"
            );
        }
    }
}

#[test]
fn an_odd_pixel_count_does_not_emit_a_phantom_second_pixel() {
    let image = decode(&[0xff; 5], 1, 1).unwrap();
    assert_eq!(image.pixel(0, 0), Some([255, 255, 255, 255]));
    assert_eq!(image.pixel(1, 0), None);
}

#[test]
fn twenty_a_short_payload_is_an_error() {
    assert!(matches!(
        decode(&[0x00; 4], 2, 1),
        Err(PropError::DecompressedTooShort { .. })
    ));
}
