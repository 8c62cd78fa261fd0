use palace_prop::crc::{asset_crc, payload_crc, ASSET_CRC_MAGIC};
use palace_prop::bag_store::EMPTY_ROSTER;
use palace_prop::crc_repair::{audit_bytes, repair, repair_bytes};
use palace_prop::header::HEADER_LEN;
use palace_prop::prp::{AssetRec, PropRecord, Roster};

#[test]
fn empty_input_returns_the_seed() {
    assert_eq!(asset_crc(&[]), ASSET_CRC_MAGIC);
}

#[test]
fn known_prop_payload_matches_the_roster() {
    let blob: [u8; HEADER_LEN] = [
        0x2c, 0x00, 0x2c, 0x00, 0x00, 0x00, 0x00, 0x00, 0x00, 0x00, 0x02, 0x00,
    ];
    assert_eq!(payload_crc(&blob), Some(asset_crc(&[])));
    assert_eq!(payload_crc(&blob[..HEADER_LEN - 1]), None);
}

#[test]
fn rotate_is_left_and_nine_bit_wraps() {
    let expected = ASSET_CRC_MAGIC.rotate_left(1) ^ 0xff;
    assert_eq!(asset_crc(&[0xff]), expected);
    assert_eq!(asset_crc(&[0xff]), expected.wrapping_add(0));
    assert_ne!(asset_crc(&[0xff]), (ASSET_CRC_MAGIC << 1) ^ 0xff);
}

#[test]
fn order_of_bytes_matters() {
    assert_ne!(asset_crc(b"ab"), asset_crc(b"ba"));
}

#[test]
fn the_crc_of_two_bytes_is_two_rotate_xor_steps() {
    let step1 = ASSET_CRC_MAGIC.rotate_left(1) ^ 0x12;
    let step2 = step1.rotate_left(1) ^ 0x34;
    assert_eq!(asset_crc(&[0x12, 0x34]), step2);
    let mut blob = vec![0u8; HEADER_LEN];
    blob.extend_from_slice(&[0x12, 0x34]);
    assert_eq!(payload_crc(&blob), Some(step2));
}

#[test]
fn a_clean_roster_repairs_to_its_own_bytes_and_a_repaired_one_audits_clean() {
    let blob = vec![0, 4, 0, 1, 0, 0, 0, 0, 0, 0, 0, 0, 0x04, 0x01, 0x01, 0x01, 0x01];
    let rec = AssetRec {
        id: 5,
        r_handle: 0,
        data_offset: 0,
        data_size: blob.len() as u32,
        last_use_time: 0,
        name_offset: -1,
        flags: 0,
        crc: 0,
    };
    let mut roster = Roster::parse(&EMPTY_ROSTER).expect("the empty roster parses");
    roster.add_prop(PropRecord { rec, header: None, encoding: None, blob, name: None });
    let written = roster.write().expect("writes");
    let clean = repair(&roster).expect("repairs");
    assert!(clean.audit.is_clean());
    assert_eq!(clean.bytes, written);

    let mut broken = written.clone();
    let at = roster.file_header().asset_map_offset as usize + 24 + 12 * roster.types().len() + 28;
    for byte in &mut broken[at..at + 4] {
        *byte ^= 0xff;
    }
    assert!(!audit_bytes(&broken).expect("parses").is_clean());
    let fixed = repair_bytes(&broken).expect("repairs");
    assert_eq!(fixed.audit.repaired_count(), 1);
    assert!(audit_bytes(&fixed.bytes).expect("parses").is_clean());
    assert_eq!(fixed.bytes, written);
}
