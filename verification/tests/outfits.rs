use palace_prop::bag_folder::BagContext;
use palace_prop::error::PropError;
use palace_prop::outfit_ops::{apply_outfit, list_outfits};
use palace_prop::outfits::{parse_outfits, quote, render, Outfit, OutfitRead, OutfitStore};
use palace_prop::prp::PropKey;

fn parse(text: &str) -> Result<(Vec<Outfit>, usize), PropError> {
    parse_outfits(text, "Outfits.prp")
}

#[test]
fn render_and_parse_round_trip_awkward_names() {
    let outfits = vec![
        Outfit {
            name: "Quote \" backslash \\ newline\n tab\t control\u{1}".to_string(),
            props: vec![PropKey::new(-5, 7), PropKey::new(-5, 8)],
        },
        Outfit {
            name: "Ünïcode ✓ 𝄞".to_string(),
            props: Vec::new(),
        },
    ];
    let text = render(&outfits);
    let (parsed, dropped) = parse(&text).expect("our own output must parse");
    assert_eq!(dropped, 0);
    assert_eq!(parsed, outfits);
}

#[test]
fn quote_escapes_control_characters() {
    assert_eq!(quote("plain"), "\"plain\"");
    assert_eq!(quote("a\"b\\c"), "\"a\\\"b\\\\c\"");
    assert_eq!(quote("\n\r\t"), "\"\\n\\r\\t\"");
    assert_eq!(quote("\u{1}"), "\"\\u0001\"");
}

#[test]
fn a_bad_document_is_an_error_not_a_panic() {
    let deep = format!("{}{}", "[".repeat(200), "]".repeat(200));
    let cases: Vec<String> = vec![
        String::new(),
        "{".to_string(),
        "[]".to_string(),
        "{ }".to_string(),
        "{\"outfits\": []}".to_string(),
        "{\"version\": 1}".to_string(),
        "{\"version\": \"1\", \"outfits\": []}".to_string(),
        "{\"version\": 2, \"outfits\": []}".to_string(),
        "{\"version\": 1, \"outfits\": {}}".to_string(),
        "{\"version\": 1, \"outfits\": [41]}".to_string(),
        "{\"version\": 1, \"outfits\": [{\"name\": \"\", \"props\": []}]}".to_string(),
        "{\"version\": 1, \"outfits\": [{\"name\": \"A\"}]}".to_string(),
        "{\"version\": 1, \"outfits\": [{\"name\": \"A\", \"props\": [[1]]}]}".to_string(),
        "{\"version\": 1, \"outfits\": [{\"name\": \"A\", \"props\": [[1, 2, 3]]}]}".to_string(),
        "{\"version\": 1, \"outfits\": [{\"name\": \"A\", \"props\": [[1, -1]]}]}".to_string(),
        "{\"version\": 1, \"outfits\": [{\"name\": \"A\", \"props\": [[1, 2.5]]}]}".to_string(),
        "{\"version\": 1, \"outfits\": [{\"name\": \"A\", \"props\": [[2147483648, 0]]}]}"
            .to_string(),
        "{\"version\": 1, \"outfits\": []} trailing".to_string(),
        "{\"version\": 1, \"outfits\": []".to_string(),
        "{\"version\": 1, \"outfits\": [{\"name\": \"A\\q\", \"props\": []}]}".to_string(),
        deep,
    ];
    for text in cases {
        let outcome = parse(&text);
        assert!(outcome.is_err(), "must be rejected: {text:?}");
    }
}

#[test]
fn unknown_keys_and_boundaries_are_accepted() {
    let text = r#"{
            "version": 1,
            "note": "added by a newer build",
            "outfits": [
                {"name": "A", "props": [[-2147483648, 0], [2147483647, 4294967295]], "extra": null}
            ]
        }"#;
    let (outfits, dropped) = parse(text).expect("unknown keys must not fail the load");
    assert_eq!(dropped, 0);
    assert_eq!(
        outfits,
        vec![Outfit {
            name: "A".to_string(),
            props: vec![PropKey::new(i32::MIN, 0), PropKey::new(i32::MAX, u32::MAX)],
        }]
    );
}

#[test]
fn duplicate_names_resolve_to_the_first_occurrence() {
    let text = r#"{
            "version": 1,
            "outfits": [
                {"name": "Twin", "props": [[1, 2]]},
                {"name": "Other", "props": []},
                {"name": "Twin", "props": [[3, 4]]},
                {"name": "Twin", "props": []}
            ]
        }"#;
    let (outfits, dropped) = parse(text).expect("duplicates are a policy, not corruption");
    assert_eq!(dropped, 2);
    assert_eq!(
        outfits.iter().map(|outfit| outfit.name.as_str()).collect::<Vec<&str>>(),
        vec!["Twin", "Other"]
    );
    assert_eq!(outfits[0].props, vec![PropKey::new(1, 2)]);
}

#[test]
fn duplicate_object_keys_resolve_to_the_first_occurrence() {
    let text = r#"{"version": 1, "version": 99, "outfits": []}"#;
    let (outfits, _dropped) = parse(text).expect("the first version wins");
    assert!(outfits.is_empty());
}

#[test]
fn json_errors_name_the_file_and_the_byte() {
    match parse("{\"version\": 1,") {
        Err(PropError::BagIo { detail }) => {
            assert_eq!(detail, "Outfits.prp: invalid JSON at byte 14: unexpected character")
        }
        other => panic!("unexpected: {other:?}"),
    }
    match parse("{\"version\": 3, \"outfits\": []}") {
        Err(PropError::BagIo { detail }) => assert_eq!(
            detail,
            "Outfits.prp: unsupported version 3 (this build reads version 1)"
        ),
        other => panic!("unexpected: {other:?}"),
    }
}

#[test]
fn escapes_and_surrogate_pairs_decode() {
    let text = "{\"version\": 1, \"outfits\": [{\"name\": \"\\u00e9\\ud834\\udd1e\\/\", \"props\": []}]}";
    let (outfits, _) = parse(text).unwrap();
    assert_eq!(outfits[0].name, "é𝄞/");
}

fn context() -> BagContext {
    BagContext {
        bag_root: Some("/home/u/props".to_string()),
        home: Some("/home/u".to_string()),
    }
}

fn store_with(text: &str) -> OutfitStore {
    OutfitStore::open(context(), OutfitRead::Contents(text.as_bytes().to_vec()))
}

#[test]
fn a_store_stages_changes_and_commits_them() {
    let mut store = OutfitStore::open(context(), OutfitRead::NotFound);
    assert!(store.is_empty());
    assert!(store.load_error().is_none());
    assert_eq!(store.path(), Some("/home/u/props/Outfits.prp"));

    let change = store.save_worn("  Hat ", &[PropKey::new(1, 2)]).unwrap();
    assert!(store.is_empty(), "staging does not touch the store");
    assert!(change.document().contains("\"name\": \"Hat\""));
    store.commit(change);
    assert_eq!(list_outfits(&store), vec!["Hat"]);

    let change = store.duplicate("Hat", "Cap").unwrap();
    store.commit(change);
    assert_eq!(store.names(), vec!["Hat", "Cap"]);
    assert!(store.rename("Hat", "Cap").is_err(), "a taken name is refused");
    store.commit(store.rename("Hat", "Helmet").unwrap());
    assert_eq!(store.names(), vec!["Helmet", "Cap"]);
    store.commit(store.delete("Cap").unwrap());
    assert_eq!(store.names(), vec!["Helmet"]);
    assert!(store.delete("Nope").is_err());
    assert!(store.save_worn("   ", &[]).is_err());

    let again = store_with(&store.to_json());
    assert_eq!(again.outfits(), store.outfits());
}

#[test]
fn applying_an_outfit_splits_worn_from_missing() {
    let store = store_with(
        r#"{"version": 1, "outfits": [{"name": "Set", "props": [[1, 1], [2, 2], [3, 3]]}]}"#,
    );
    let applied = apply_outfit(&store, " Set ", &[PropKey::new(3, 3), PropKey::new(1, 1)]).unwrap();
    assert_eq!(applied.worn, vec![PropKey::new(1, 1), PropKey::new(3, 3)]);
    assert_eq!(applied.missing, vec![PropKey::new(2, 2)]);
    assert!(!applied.is_complete());
    assert_eq!(applied.total(), 3);
    assert!(apply_outfit(&store, "Other", &[]).is_err());
}

#[test]
fn a_corrupt_file_loads_empty_with_an_error() {
    let store = store_with("{ not json");
    assert!(store.is_empty());
    assert!(store.load_error().is_some());
    let store = OutfitStore::open(context(), OutfitRead::Contents(vec![0xff, 0xfe]));
    assert!(store.load_error().is_some());
    let outside = OutfitStore::open(
        BagContext { bag_root: None, home: None },
        OutfitRead::NotFound,
    );
    assert!(outside.load_error().is_some());
    assert!(outside.save().is_err());
}
