use palace_prop::error::PropError;
use palace_prop::header::{PropEndian, PropFormat, PropHeader, FORMAT_MASK};

fn header(width: i16, height: i16, flags: u16, endian: PropEndian) -> Vec<u8> {
    PropHeader {
        width,
        height,
        h_offset: 0,
        v_offset: 0,
        script_offset: 0,
        flags,
        endian,
    }
    .encode()
    .to_vec()
}

#[test]
fn a_real_8_bit_header_round_trips() {
    let raw = [
        0x2c, 0x00, 0x2c, 0x00, 0x07, 0x00, 0x07, 0x00, 0x00, 0x00, 0x0a, 0x00,
    ];
    let h = PropHeader::parse(&raw).unwrap();
    assert_eq!(h.width, 44);
    assert_eq!(h.height, 44);
    assert_eq!(h.h_offset, 7);
    assert_eq!(h.v_offset, 7);
    assert_eq!(h.script_offset, 0);
    assert_eq!(h.flags, 0x000a);
    assert_eq!(h.endian, PropEndian::Little);
    assert_eq!(h.format(), PropFormat::EightBit);
    assert!(h.is_head());
    assert!(h.is_rare());
    assert!(!h.is_ghost());
    assert_eq!(h.encode(), raw);
}

#[test]
fn endianness_is_sniffed_from_the_second_byte_alone() {
    assert_eq!(PropEndian::sniff(&[0x2c, 0x00]), Some(PropEndian::Little));
    assert_eq!(PropEndian::sniff(&[0x00, 0x2c]), Some(PropEndian::Big));
    assert_eq!(PropEndian::sniff(&[0x2c]), None);
}

#[test]
fn a_big_endian_header_decodes_its_offsets_signed() {
    let raw = [
        0x00, 0x2c, 0x00, 0x2c, 0xff, 0xd4, 0x00, 0x00, 0x00, 0x00, 0x02, 0x00,
    ];
    let h = PropHeader::parse(&raw).unwrap();
    assert_eq!(h.endian, PropEndian::Big);
    assert_eq!((h.width, h.height), (44, 44));
    assert_eq!(h.h_offset, -44);
    assert_eq!(h.format(), PropFormat::S20Bit);
}

#[test]
fn format_selection_order_matters() {
    let h = PropHeader::parse(&header(44, 44, 0xff80, PropEndian::Little)).unwrap();
    assert_eq!(h.flags & FORMAT_MASK, 0x0300);
    assert_eq!(h.format(), PropFormat::SixteenBit);
    assert_eq!(
        PropHeader::parse(&header(44, 44, 0x0340, PropEndian::Little))
            .unwrap()
            .format(),
        PropFormat::S20Bit
    );
    assert_eq!(
        PropHeader::parse(&header(44, 44, 0x0100, PropEndian::Little))
            .unwrap()
            .format(),
        PropFormat::ThirtyTwoBit
    );
    assert_eq!(
        PropHeader::parse(&header(44, 44, 0x0042, PropEndian::Little))
            .unwrap()
            .format(),
        PropFormat::TwentyBit
    );
    assert_eq!(
        PropHeader::parse(&header(44, 44, 0x0002, PropEndian::Little))
            .unwrap()
            .format(),
        PropFormat::EightBit
    );
}

#[test]
fn sixteen_bit_pattern_tolerates_every_original_flag_bit() {
    for extra in [0x0000, 0x0002, 0x0004, 0x0008, 0x0010, 0x0020, 0x003e] {
        let flags = 0xff80 | extra;
        let h = PropHeader::parse(&header(44, 44, flags, PropEndian::Little)).unwrap();
        assert_eq!(h.format(), PropFormat::SixteenBit, "flags {flags:#06x}");
    }
}

#[test]
fn short_and_impossible_headers_are_errors_not_panics() {
    assert!(matches!(
        PropHeader::parse(&[0x2c, 0x00, 0x2c, 0x00]),
        Err(PropError::HeaderTooShort { available: 4 })
    ));
    assert!(matches!(
        PropHeader::parse(&header(0, 44, 0, PropEndian::Little)),
        Err(PropError::ImplausibleDimensions { .. })
    ));
    assert!(matches!(
        PropHeader::parse(&header(44, -1, 0, PropEndian::Little)),
        Err(PropError::ImplausibleDimensions { .. })
    ));
    assert!(matches!(
        PropHeader::parse(&header(44, 8000, 0, PropEndian::Little)),
        Err(PropError::ImplausibleDimensions { .. })
    ));
}

#[test]
fn payload_sizes_per_format() {
    assert_eq!(PropFormat::SixteenBit.payload_bytes_for(1936), 3872);
    assert_eq!(PropFormat::TwentyBit.payload_bytes_for(1936), 4840);
    assert_eq!(PropFormat::S20Bit.payload_bytes_for(1936), 4840);
    assert_eq!(PropFormat::ThirtyTwoBit.payload_bytes_for(1936), 7744);
    assert_eq!(PropFormat::S20Bit.payload_bytes_for(3), 10);
}

#[test]
fn encoding_a_header_and_parsing_it_back_is_the_identity() {
    for endian in [PropEndian::Little, PropEndian::Big] {
        let h = PropHeader {
            width: 44,
            height: 100,
            h_offset: -3,
            v_offset: 9,
            script_offset: 2,
            flags: 0xff82,
            endian,
        };
        assert_eq!(PropHeader::parse(&h.encode()), Ok(h));
    }
}

#[test]
fn a_little_endian_width_above_a_byte_is_sniffed_big() {
    // The round trip fails exactly where the sniff cannot tell the byte order.
    let h = PropHeader {
        width: 300,
        height: 10,
        h_offset: 0,
        v_offset: 0,
        script_offset: 0,
        flags: 0,
        endian: PropEndian::Little,
    };
    assert_ne!(PropHeader::parse(&h.encode()), Ok(h));
}

#[test]
fn pixel_count_and_flag_queries() {
    let h = PropHeader::parse(&header(44, 44, 0x003e, PropEndian::Little)).unwrap();
    assert_eq!(h.pixel_count(), Ok(1936));
    assert!(h.is_head() && h.is_ghost() && h.is_rare() && h.is_animate() && h.is_bounce());
    let negative = PropHeader {
        width: -2,
        height: 3,
        h_offset: 0,
        v_offset: 0,
        script_offset: 0,
        flags: 0,
        endian: PropEndian::Little,
    };
    assert_eq!(
        negative.pixel_count(),
        Err(PropError::ImageTooLarge { width: -2, height: 3 })
    );
    assert_eq!(PropFormat::EightBit.name(), "8-bit");
    assert_eq!(PropFormat::S20Bit.name(), "s20-bit");
    assert!(!PropFormat::EightBit.is_zlib());
    assert!(PropFormat::ThirtyTwoBit.is_zlib());
    assert_eq!(PropFormat::SixteenBit.bytes_per_pixel(), Some(2));
    assert_eq!(PropFormat::TwentyBit.bytes_per_pixel(), None);
}
