use palace_prop::palette::{lookup, PALETTE};

#[test]
fn anchors_match_the_reference_table() {
    assert_eq!(lookup(0), 0xffff_ffff);
    assert_eq!(lookup(6), 0xffff_dfff);
    assert_eq!(lookup(54), 0xffee_eeee);
    assert_eq!(lookup(255), 0xff00_0000);
}

#[test]
fn every_entry_is_opaque() {
    assert!(
        PALETTE.iter().all(|c| c >> 24 == 0xff),
        "palette contains a non-opaque entry"
    );
}

#[test]
fn trailing_entries_are_black() {
    assert!(PALETTE[229..].iter().all(|c| *c == 0xff00_0000));
}
