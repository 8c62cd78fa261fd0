use palace_prop::bag_catalog::{BagCatalog, BagCollection};
use palace_prop::bag_store::{lock_path, EMPTY_ROSTER};
use palace_prop::gather::{size_rejection, MAX_GATHER_BLOB_BYTES};
use palace_prop::prp::{AssetRec, PropRecord, Roster};
use palace_prop::shelves::{is_prp_file, shelf_name};

#[test]
fn the_empty_roster_constant_is_a_valid_prp() {
    let roster = Roster::parse(&EMPTY_ROSTER).expect("the empty roster parses");
    assert!(roster.is_empty());
    assert_eq!(roster.types().len(), 1);
    assert_eq!(roster.write().expect("writes"), EMPTY_ROSTER);
}

#[test]
fn lock_paths_sit_beside_their_target() {
    assert_eq!(lock_path("/bags/My Bag.prp").expect("a file name"), "/bags/My Bag.prp.lock");
}

#[test]
fn the_size_limit_is_exclusive_and_names_the_length() {
    assert!(size_rejection(0).is_none());
    assert!(size_rejection(MAX_GATHER_BLOB_BYTES).is_none());
    if let Ok(over) = usize::try_from(u64::from(u32::MAX) + 1) {
        let reason = size_rejection(over).expect("over the limit is rejected");
        assert!(reason.contains(&over.to_string()), "the reason must name the length: {reason}");
    }
}

#[test]
fn is_prp_file_matches_both_cases_only_for_prp() {
    assert!(is_prp_file("Old Gems.prp"));
    assert!(is_prp_file("OLD.PRP"));
    assert!(!is_prp_file("notes.txt"));
    assert!(!is_prp_file("no-extension"));
    assert!(!is_prp_file("almost.prpx"));
}

#[test]
fn shelf_name_is_the_file_stem() {
    assert_eq!(shelf_name("/bags/shelves/Old Gems.prp"), "Old Gems");
    assert_eq!(shelf_name("/bags/shelves/LEGACY.PRP"), "LEGACY");
}

fn loose_record(id: i32, blob: Vec<u8>) -> PropRecord {
    let rec = AssetRec {
        id,
        r_handle: 0,
        data_offset: 0,
        data_size: blob.len() as u32,
        last_use_time: 0,
        name_offset: -1,
        flags: 0,
        crc: 0,
    };
    PropRecord { rec, header: None, encoding: None, blob, name: None }
}

#[test]
fn the_catalog_accounts_for_every_record_once() {
    let good = vec![0, 4, 0, 1, 0, 0, 0, 0, 0, 0, 0, 0, 0x04, 0x01, 0x01, 0x01, 0x01];
    let mut first = Roster::parse(&EMPTY_ROSTER).expect("the empty roster parses");
    first.add_prop(loose_record(5, good.clone()));
    first.add_prop(loose_record(6, vec![1, 2, 3]));
    let mut second = Roster::parse(&EMPTY_ROSTER).expect("the empty roster parses");
    second.add_prop(loose_record(5, good));
    let catalog = BagCatalog::new(vec![
        BagCollection::new("My Bag", first),
        BagCollection::new("shelf:Old", second),
    ]);
    assert_eq!(catalog.len(), 1);
    assert_eq!(catalog.skipped(), 1);
    assert_eq!(catalog.duplicates(), 1);
    assert_eq!(catalog.len() + catalog.skipped() + catalog.duplicates(), 3);
}
