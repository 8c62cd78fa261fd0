use palace_prop::favorites_trash::{Favorites, FAVE_SPEC_LEN};
use palace_prop::error::PropError;
use palace_prop::bag_store::EMPTY_ROSTER;
use palace_prop::prp::{PropKey, Roster};
use palace_prop::trash_doc::{hex_decode, hex_encode, parse_trash, render, TrashEntry};

#[test]
fn fave_payload_round_trips_in_order_with_deduplication() {
    let keys = [
        PropKey::new(1_675_473_842, 0x5051_93c2),
        PropKey::new(-7, 0),
        PropKey::new(i32::MAX, u32::MAX),
    ];
    let mut favorites = Favorites::new();
    for key in keys {
        assert!(favorites.add(key));
    }
    assert!(!favorites.add(keys[0]), "duplicate is ignored");
    let payload = favorites.encode_payload();
    assert_eq!(payload.len(), keys.len() * FAVE_SPEC_LEN);
    let decoded = Favorites::decode_payload(&payload).expect("payload decodes");
    assert_eq!(decoded.keys(), &keys);
}

#[test]
fn a_payload_that_is_not_whole_specs_is_rejected() {
    assert!(Favorites::decode_payload(&[0u8; 7]).is_err());
    assert!(Favorites::decode_payload(&[0u8; 9]).is_err());
    assert!(Favorites::decode_payload(&[]).is_ok());
}

fn chars(s: &str) -> Vec<char> {
    s.chars().collect()
}

#[test]
fn hex_round_trips_and_rejects_bad_input() {
    let bytes = [0x00, 0x0f, 0xa5, 0xff];
    assert_eq!(hex_encode(&bytes), "000fa5ff");
    assert_eq!(hex_decode(&chars("000fa5ff")), Some(bytes.to_vec()));
    assert_eq!(hex_decode(&chars("000FA5FF")), Some(bytes.to_vec()));
    assert_eq!(hex_decode(&chars("-")), Some(Vec::new()));
    assert_eq!(hex_decode(&chars("abc")), None);
    assert_eq!(hex_decode(&chars("zz")), None);
}

#[test]
fn a_rendered_document_parses_back() {
    let entries = vec![
        TrashEntry {
            key: PropKey::new(1000, 3_735_928_559),
            name: Some("Forty Two".to_string()),
            blob: vec![1, 2, 3, 4],
        },
        TrashEntry {
            key: PropKey::new(-1, 0),
            name: None,
            blob: Vec::new(),
        },
    ];
    let text = render(&entries);
    let parsed = parse_trash(&text, "Trash.store").expect("rendered document parses");
    assert_eq!(parsed, entries);
}

#[test]
fn a_bad_document_is_a_clean_error() {
    let path = "Trash.store";
    assert!(parse_trash("", path).is_err());
    assert!(parse_trash("not-a-trash 1\n", path).is_err());
    assert!(parse_trash("palace-prop-trash 2\n", path).is_err());
    assert!(parse_trash("palace-prop-trash 1\n1 2 3\n", path).is_err());
    assert!(parse_trash("palace-prop-trash 1\n1 2 xx 00\n", path).is_err());
}

fn trash_error_text(text: &str) -> String {
    match parse_trash(text, "Trash.store") {
        Err(PropError::BagIo { detail }) => detail,
        other => panic!("expected a bag error, got {:?}", other),
    }
}

#[test]
fn trash_errors_name_their_cause_and_line() {
    assert_eq!(trash_error_text("\n  \n"), "Trash.store: trash document is empty");
    assert_eq!(
        trash_error_text("not-a-trash 1\n"),
        "Trash.store: trash document does not start with the palace-prop-trash magic"
    );
    assert_eq!(trash_error_text("palace-prop-trash\n"), "Trash.store: trash document has no version");
    assert_eq!(
        trash_error_text("palace-prop-trash 2\n"),
        "Trash.store: trash document version 2 is not 1"
    );
    assert_eq!(
        trash_error_text("palace-prop-trash 1 x\n"),
        "Trash.store: trash document header has trailing fields"
    );
    assert_eq!(
        trash_error_text("palace-prop-trash 1\n# note\n\n1 2 3\n"),
        "Trash.store: line 4: expected exactly 4 fields"
    );
    assert_eq!(
        trash_error_text("palace-prop-trash 1\nx 2 - -\n"),
        "Trash.store: line 2: bad id \"x\""
    );
    assert_eq!(
        trash_error_text("palace-prop-trash 1\n1 -2 - -\n"),
        "Trash.store: line 2: bad crc \"-2\""
    );
    assert_eq!(trash_error_text("palace-prop-trash 1\n1 2 xx 00\n"), "Trash.store: line 2: bad name hex");
    assert_eq!(trash_error_text("palace-prop-trash 1\n1 2 ff 00\n"), "Trash.store: line 2: name is not UTF-8");
    assert_eq!(trash_error_text("palace-prop-trash 1\n1 2 41 0\n"), "Trash.store: line 2: bad blob hex");
}

#[test]
fn removing_a_favourite_keeps_the_rest_in_order() {
    let mut favorites = Favorites::new();
    favorites.add(PropKey::new(1, 1));
    favorites.add(PropKey::new(2, 2));
    favorites.add(PropKey::new(3, 3));
    assert!(favorites.remove(PropKey::new(2, 2)));
    assert!(!favorites.remove(PropKey::new(2, 2)));
    assert_eq!(favorites.keys(), &[PropKey::new(1, 1), PropKey::new(3, 3)]);
    assert!(favorites.contains(PropKey::new(3, 3)));
    assert_eq!(favorites.len(), 2);
}

#[test]
fn a_written_list_reads_back_and_a_rewrite_replaces_it() {
    let mut roster = Roster::parse(&EMPTY_ROSTER).expect("the empty roster parses");
    assert!(Favorites::read(&roster).keys().is_empty());
    let mut favorites = Favorites::new();
    favorites.add(PropKey::new(3, 30));
    favorites.add(PropKey::new(-1, 7));
    favorites.apply_to(&mut roster).expect("writing favourites never fails");
    assert_eq!(Favorites::read(&roster).keys(), favorites.keys());
    let written = roster.write().expect("writes");
    favorites.apply_to(&mut roster).expect("writing favourites never fails");
    assert_eq!(roster.write().expect("writes"), written, "a no-op write stays byte-exact");
    let mut fewer = Favorites::new();
    fewer.add(PropKey::new(-1, 7));
    fewer.apply_to(&mut roster).expect("writing favourites never fails");
    assert_eq!(Favorites::read(&roster).keys(), fewer.keys());
    assert_eq!(roster.records().iter().filter(|r| r.id() == 128).count(), 1);
}
