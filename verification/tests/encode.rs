use std::io::Read;
use std::io::Write;

use palace_prop::codec::s20;
use palace_prop::crc::{asset_crc, payload_crc};
use palace_prop::decode;
use palace_prop::encode::{encode_s20_blob, encode_s20_payload, quantize};
use palace_prop::error::PropError;
use palace_prop::header::{PropFormat, PropHeader};
use palace_prop::image::PropImage;

fn image_from(f: impl Fn(usize) -> [u8; 4], width: u32, height: u32) -> PropImage {
    let mut rgba = Vec::with_capacity((width * height * 4) as usize);
    for i in 0..(width * height) as usize {
        rgba.extend_from_slice(&f(i));
    }
    PropImage::from_rgba(width, height, rgba).unwrap()
}

fn quantised(channel: u8) -> u8 {
    ((quantize(channel) * 255) / 31) as u8
}

fn inflate_for_test(payload: &[u8]) -> Vec<u8> {
    let mut out = Vec::new();
    flate2::read::ZlibDecoder::new(payload)
        .read_to_end(&mut out)
        .unwrap();
    out
}

#[test]
fn quantisation_hits_both_ends_exactly() {
    assert_eq!(quantize(0), 0);
    assert_eq!(quantize(255), 31);
    assert_eq!(quantised(255), 255);
    assert_eq!(quantised(0), 0);
}

#[test]
fn quantisation_is_rounding_of_channel_times_31_over_255() {
    for channel in 0..=255u8 {
        let reference = (f64::from(channel) * (31.0 / 255.0)).round() as u32;
        assert_eq!(quantize(channel), reference, "channel {channel}");
    }
}

#[test]
fn a_hand_computed_group_matches_the_reference_bit_layout() {
    let image = image_from(|i| if i == 0 { [255, 0, 0, 0] } else { [0, 0, 0, 0] }, 2, 1);
    let payload = encode_s20_payload(&image).unwrap();
    let raw = inflate_for_test(&payload);
    assert_eq!(raw, vec![0xf8, 0x00, 0x00, 0x00, 0x00]);
}

#[test]
fn the_third_byte_carries_pixel_ones_red_and_pixel_zeros_alpha() {
    let image = image_from(
        |i| {
            if i == 0 {
                [0, 0, 0, 255]
            } else {
                [255, 0, 0, 0]
            }
        },
        2,
        1,
    );
    let raw = inflate_for_test(&encode_s20_payload(&image).unwrap());
    assert_eq!(raw[1] & 0x01, 0x01, "pixel 0 alpha top bit");
    assert_eq!(raw[2] & 0x08, 0x08, "pixel 1 red top bit");
    assert_eq!(raw[2] & 0xf0, 0xf0, "pixel 0 alpha low nibble");
}

#[test]
fn encode_then_decode_is_exact_for_the_colour_cube() {
    let values = [0u8, 1, 9, 64, 128, 130, 200, 254, 255];
    for r in values {
        for g in values {
            let image = image_from(move |i| [r, g, (i * 37) as u8, (i * 91) as u8], 2, 2);
            let blob = encode_s20_blob(&image, 0, 0, 0).unwrap();
            let decoded = decode(&blob).unwrap();
            assert_eq!(decoded.header.format(), PropFormat::S20Bit);
            for y in 0..2 {
                for x in 0..2 {
                    let original = image.pixel(x, y).unwrap();
                    let expected = [
                        quantised(original[0]),
                        quantised(original[1]),
                        quantised(original[2]),
                        quantised(original[3]),
                    ];
                    assert_eq!(
                        decoded.image.pixel(x, y).unwrap(),
                        expected,
                        "pixel ({x},{y}) of {original:?}"
                    );
                }
            }
        }
    }
}

#[test]
fn the_encoder_is_the_exact_inverse_of_the_decoder() {
    let image = image_from(
        |i| [(i * 5) as u8, (i * 3) as u8, i as u8, 255 - i as u8],
        44,
        44,
    );
    let raw = inflate_for_test(&encode_s20_payload(&image).unwrap());
    assert_eq!(raw.len(), 44 * 44 * 5 / 2);
    let decoded = s20::decode(&raw, 44, 44).unwrap();
    for y in 0..44 {
        for x in 0..44 {
            let original = image.pixel(x, y).unwrap();
            let expected = [
                quantised(original[0]),
                quantised(original[1]),
                quantised(original[2]),
                quantised(original[3]),
            ];
            assert_eq!(decoded.pixel(x, y).unwrap(), expected);
        }
    }
}

#[test]
fn an_odd_width_is_refused() {
    let image = PropImage::transparent(3, 1);
    assert!(matches!(
        encode_s20_payload(&image),
        Err(PropError::UnencodableImage { .. })
    ));
}

#[test]
fn encoded_blobs_carry_a_consistent_crc_over_the_payload() {
    let image = image_from(|i| [i as u8, 0, 0, 255], 4, 4);
    let blob = encode_s20_blob(&image, -3, 7, 0x0002).unwrap();
    let header = PropHeader::parse(&blob).unwrap();
    assert_eq!(header.h_offset, -3);
    assert_eq!(header.v_offset, 7);
    assert!(header.is_head());
    assert_eq!(header.format(), PropFormat::S20Bit);
    assert_eq!(payload_crc(&blob), Some(asset_crc(&blob[12..])));
}

#[test]
fn the_format_bits_of_the_base_flags_are_replaced() {
    let image = PropImage::transparent(2, 2);
    let blob = encode_s20_blob(&image, 0, 0, 0xff80 | 0x0004).unwrap();
    let prop = decode(&blob).unwrap();
    assert_eq!(prop.format(), PropFormat::S20Bit);
    assert!(prop.header.is_ghost());
    assert_eq!(prop.header.flags, 0xfe84);
    let again = prop.encode_s20().unwrap();
    assert_eq!(decode(&again).unwrap().image, prop.image);
}

#[test]
fn decode_reads_every_compressed_format_through_zlib() {
    let mut encoder = flate2::write::ZlibEncoder::new(Vec::new(), flate2::Compression::default());
    encoder.write_all(&[1, 2, 3, 4, 5, 6, 7, 8]).unwrap();
    let payload = encoder.finish().unwrap();
    // 2x1, 32-bit.
    let mut blob = vec![2, 0, 1, 0, 0, 0, 0, 0, 0, 0, 0x00, 0x01];
    blob.extend_from_slice(&payload);
    let prop = decode(&blob).unwrap();
    assert_eq!(prop.format(), PropFormat::ThirtyTwoBit);
    assert_eq!(prop.image.pixel(1, 0), Some([5, 6, 7, 8]));
    // A 3x1 32-bit prop needs 12 bytes but the stream holds 8.
    blob[0] = 3;
    assert_eq!(
        decode(&blob).map(|p| p.image),
        Err(PropError::DecompressedTooShort {
            format: "32-bit",
            expected: 12,
            actual: 8
        })
    );
    // A broken stream is a zlib error, never a panic.
    let mut broken = vec![2, 0, 1, 0, 0, 0, 0, 0, 0, 0, 0x00, 0x01];
    broken.extend_from_slice(&[0xde, 0xad, 0xbe, 0xef]);
    assert!(matches!(decode(&broken), Err(PropError::Zlib { .. })));
}

#[test]
fn the_quick_start_blob_decodes_as_eight_bit() {
    let mut blob = vec![4, 0, 1, 0, 0, 0, 0, 0, 0, 0, 0, 0];
    blob.extend_from_slice(&[0x04, 0x01, 0x01, 0x01, 0x01]);
    let prop = decode(&blob).unwrap();
    assert_eq!(prop.format(), PropFormat::EightBit);
    assert_eq!((prop.image.width(), prop.image.height()), (4, 1));
    assert!(!prop.header.is_head());
    let s20 = prop.encode_s20().unwrap();
    let again = decode(&s20).unwrap();
    assert_eq!(again.format(), PropFormat::S20Bit);
    assert_eq!(
        palace_prop::decode_header(&blob).unwrap(),
        prop.header
    );
}
