use palace_prop::header::PropEndian;
use palace_prop::prop_animated_recon::{decode_big_prop, is_big_prop, BigImageDescriptor, ReconError};

#[test]
fn descriptor_round_trips_in_both_byte_orders() {
    let d = BigImageDescriptor {
        width: 220,
        height: 123,
        x_offset: -88,
        y_offset: -39,
        reserved: 119,
        flags: 0x0c02,
    };
    for endian in [PropEndian::Little, PropEndian::Big] {
        let bytes = d.encode(endian);
        let parsed = BigImageDescriptor::parse(&bytes, endian).unwrap();
        assert_eq!(parsed, d);
    }
}

#[test]
fn a_real_world_descriptor_decodes() {
    let bytes = [
        0x00, 0xdc, 0x00, 0xdc, 0xff, 0xa8, 0xff, 0xa8, 0x00, 0x64, 0x04, 0x02,
    ];
    let d = BigImageDescriptor::parse(&bytes, PropEndian::Big).unwrap();
    assert_eq!(d.width, 220);
    assert_eq!(d.height, 220);
    assert_eq!((d.x_offset, d.y_offset), (-88, -88));
    assert_eq!(d.reserved, 100);
    assert_eq!(d.flags, 0x0402);
}

#[test]
fn a_non_big_header_is_rejected_not_decoded() {
    let mut blob = vec![0x00, 0x2c, 0x00, 0x2c];
    blob.extend_from_slice(&[0, 0, 0, 0, 0, 0, 0x02, 0x00]);
    blob.extend_from_slice(&[0u8; 4840]);
    blob.extend_from_slice(&[0, 0, 0, 0]);
    blob.extend_from_slice(&[0u8; 12]);
    assert!(matches!(
        decode_big_prop(&blob),
        Err(ReconError::NotABigProp { flags: 0x0200 })
    ));
    assert!(!is_big_prop(&blob));
}

#[test]
fn an_embedded_length_past_the_end_is_reported() {
    let mut blob = vec![0x2c, 0x00, 0x2c, 0x00, 0, 0, 0, 0, 0, 0, 0x00, 0x04];
    blob.extend_from_slice(&[0u8; 4840]);
    blob.extend_from_slice(&100u32.to_le_bytes());
    blob.extend_from_slice(&[0u8; 12]);
    blob.extend_from_slice(&[0u8; 10]);
    assert!(matches!(
        decode_big_prop(&blob),
        Err(ReconError::ImageRunsPastEnd { declared: 100, available: 10 })
    ));
}
