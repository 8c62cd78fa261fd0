use std::collections::HashSet;

use palace_prop::bag::PropBag;
use palace_prop::prop_catalog::{extract_name, record_ids, PropCatalog};
use palace_prop::provenance::Provenance;

/// A 4x1 8-bit prop: one run of palette index 1.
fn prop_blob() -> Vec<u8> {
    vec![0, 4, 0, 1, 0, 0, 0, 0, 0, 0, 0, 0, 0x04, 0x01, 0x01, 0x01, 0x01]
}

fn bag(records: &[(u32, u32, &[u8])]) -> PropBag {
    let mut index = Vec::new();
    let mut props = Vec::new();
    for (id, crc, blob) in records {
        index.extend_from_slice(&id.to_be_bytes());
        index.extend_from_slice(&crc.to_be_bytes());
        index.extend_from_slice(&(props.len() as u32).to_be_bytes());
        index.extend_from_slice(&(blob.len() as u32).to_be_bytes());
        props.extend_from_slice(blob);
    }
    PropBag::parse(&index, &props)
}

fn bundled(name: &str) -> Vec<u8> {
    let mut prefix = vec![0u8; 32];
    prefix[4..4 + name.len()].copy_from_slice(name.as_bytes());
    prefix.extend(prop_blob());
    prefix
}

#[test]
fn the_catalog_skips_placeholders_duplicates_and_broken_headers() {
    let good = bundled("Party Hat");
    let broken = vec![0u8; 20];
    let b = bag(&[
        (0x8000_0001, 1, &good),
        (100, 7, &good),
        (100, 8, &good),
        (200, 9, &broken),
        (300, 10, &good),
    ]);
    let favorites: HashSet<u32> = [300].into_iter().collect();
    let trash: HashSet<u32> = [100].into_iter().collect();
    let catalog = PropCatalog::from_bag(b, &favorites, &trash, Provenance::cache("bundle"));
    let ids: Vec<u32> = catalog.entries().iter().map(|e| e.id).collect();
    assert_eq!(ids, vec![100, 300]);
    let first = &catalog.entries()[0];
    assert_eq!(first.crc, 7);
    assert_eq!(first.name.as_deref(), Some("Party Hat"));
    assert_eq!((first.width, first.height), (4, 1));
    assert!(first.trash && !first.favorite);
    assert!(catalog.entries()[1].favorite);
    assert!(catalog.entries().iter().all(|e| e.provenance.is_cache()));
    assert!(catalog.bag_entries().is_empty());
    assert_eq!(catalog.len(), 2);
    assert!(catalog.catalog_json().starts_with("{\"props\":[{\"id\":100,\"crc\":7,\"name\":\"Party Hat\""));
    assert_eq!(catalog.blob(300), Some(prop_blob()));
    assert!(catalog.blob(200).is_none());
    assert!(catalog.thumbnail_png(100).is_some_and(|png| png.starts_with(&[0x89, b'P', b'N', b'G'])));
    assert!(catalog.thumbnail_png(999).is_none());
}

#[test]
fn a_name_is_the_longest_printable_run_with_an_alphanumeric() {
    let mut prefix = vec![0u8; 32];
    prefix[0..2].copy_from_slice(b"ab");
    prefix[3..8].copy_from_slice(b"-- --");
    prefix[10..16].copy_from_slice(b"Crown1");
    prefix[20..23].copy_from_slice(b"Hat");
    assert_eq!(extract_name(&prefix).as_deref(), Some("Crown1"));
    assert_eq!(extract_name(&[0u8; 32]), None);
    assert_eq!(extract_name(b"  x  \0!!!!\0"), None);
}

#[test]
fn favs_records_yield_their_first_words() {
    let mut bytes = Vec::new();
    for id in [5u32, 0x0102_0304] {
        bytes.extend_from_slice(&id.to_be_bytes());
        bytes.extend_from_slice(&[0u8; 12]);
    }
    bytes.extend_from_slice(&[1, 2, 3]);
    assert_eq!(record_ids(&bytes), vec![5, 0x0102_0304]);
}
