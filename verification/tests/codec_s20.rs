use palace_prop::codec::s20::decode;
use palace_prop::codec::scale;
use palace_prop::error::PropError;

fn group(bytes: [u8; 5]) -> [[u8; 4]; 2] {
    let image = decode(&bytes, 2, 1).unwrap();
    [image.pixel(0, 0).unwrap(), image.pixel(1, 0).unwrap()]
}

#[test]
fn s20_all_ones_is_white_opaque() {
    assert_eq!(
        group([0xff; 5]),
        [[255, 255, 255, 255], [255, 255, 255, 255]]
    );
}

#[test]
fn s20_all_zeroes_is_black_transparent() {
    assert_eq!(group([0x00; 5]), [[0, 0, 0, 0], [0, 0, 0, 0]]);
}

#[test]
fn red_zero_is_the_high_five_bits_of_byte_zero() {
    let [p0, _] = group([0x08, 0x00, 0x00, 0x00, 0x00]);
    assert_eq!(p0, [scale(1, 31), 0, 0, 0]);
}

#[test]
fn green_zero_spans_bytes_zero_and_one() {
    let [p0, _] = group([0x00, 0x40, 0x00, 0x00, 0x00]);
    assert_eq!(p0, [0, scale(1, 31), 0, 0]);
    let [p0, _] = group([0x04, 0x00, 0x00, 0x00, 0x00]);
    assert_eq!(p0, [0, scale(16, 31), 0, 0]);
}

#[test]
fn blue_zero_is_five_bits_of_byte_one() {
    let [p0, _] = group([0x00, 0x02, 0x00, 0x00, 0x00]);
    assert_eq!(p0, [0, 0, scale(1, 31), 0]);
    let [p0, _] = group([0x00, 0x20, 0x00, 0x00, 0x00]);
    assert_eq!(p0, [0, 0, scale(16, 31), 0]);
}

#[test]
fn alpha_zero_is_split_between_bytes_one_and_two() {
    let [low, _] = group([0x00, 0x00, 0x10, 0x00, 0x00]);
    assert_eq!(low[3], scale(1, 31));
    let [high, _] = group([0x00, 0x01, 0x00, 0x00, 0x00]);
    assert_eq!(high[3], scale(16, 31));
    let [all, _] = group([0x00, 0x01, 0xf0, 0x00, 0x00]);
    assert_eq!(all[3], 255);
}

#[test]
fn red_one_is_split_between_bytes_two_and_three() {
    let [_, p1] = group([0x00, 0x00, 0x08, 0x00, 0x00]);
    assert_eq!(p1[0], scale(16, 31));
    let [_, p1] = group([0x00, 0x00, 0x00, 0x80, 0x00]);
    assert_eq!(p1[0], scale(1, 31));
}

#[test]
fn green_one_is_five_bits_of_byte_three() {
    let [_, p1] = group([0x00, 0x00, 0x00, 0x04, 0x00]);
    assert_eq!(p1[1], scale(1, 31));
    let [_, p1] = group([0x00, 0x00, 0x00, 0x7c, 0x00]);
    assert_eq!(p1[1], 255);
}

#[test]
fn blue_one_spans_bytes_three_and_four() {
    let [_, p1] = group([0x00, 0x00, 0x00, 0x00, 0x20]);
    assert_eq!(p1[2], scale(1, 31));
    let [_, p1] = group([0x00, 0x00, 0x00, 0x01, 0x00]);
    assert_eq!(p1[2], scale(8, 31));
}

#[test]
fn alpha_one_is_the_low_five_bits_of_byte_four() {
    let [_, p1] = group([0x00, 0x00, 0x00, 0x00, 0x01]);
    assert_eq!(p1[3], scale(1, 31));
    let [_, p1] = group([0x00, 0x00, 0x00, 0x00, 0x1f]);
    assert_eq!(p1[3], 255);
}

#[test]
fn setting_any_bit_changes_exactly_one_channel() {
    for byte in 0..5usize {
        for bit in 0..8u32 {
            let mut bytes = [0u8; 5];
            bytes[byte] = 1 << bit;
            let [p0, p1] = group(bytes);
            let changed = [p0, p1]
                .iter()
                .flatten()
                .filter(|channel| **channel != 0)
                .count();
            assert!(
                changed == 1,
                "byte {byte} bit {bit} touched {changed} channels: {p0:?} {p1:?}"
            );
        }
    }
}

#[test]
fn s20_a_short_payload_is_an_error() {
    assert!(matches!(
        decode(&[0x00; 4], 2, 1),
        Err(PropError::DecompressedTooShort { .. })
    ));
}

#[test]
fn an_odd_s20_pixel_count_reads_one_whole_group() {
    assert_eq!(
        decode(&[0x00; 4], 1, 1),
        Err(PropError::DecompressedTooShort {
            format: "s20-bit",
            expected: 5,
            actual: 4
        })
    );
    let image = decode(&[0xff; 5], 1, 1).unwrap();
    assert_eq!(image.pixel(0, 0), Some([255, 255, 255, 255]));
    assert_eq!(image.pixel(1, 0), None);
}
