use palace_prop::bag_catalog::{bag_entries_json, thumbnail_cache_name};
use palace_prop::catalog::{entries_json, CatalogEntry};
use palace_prop::catalog_paging::{count_in_collection, page_in_collection, page_slice, CatalogPage, ThumbnailCache};
use palace_prop::provenance::{bag_listing, merge_entries, Provenance};
use palace_prop::prp::PropKey;

fn entry(id: u32, crc: u32, provenance: Provenance) -> CatalogEntry {
    CatalogEntry {
        id,
        crc,
        name: Some(format!("prop-{id:08x}")),
        width: 44,
        height: 44,
        flags: 0x0200,
        favorite: false,
        trash: false,
        provenance,
    }
}

fn bag_entry(id: u32, crc: u32, collection: &str) -> CatalogEntry {
    CatalogEntry {
        id,
        crc,
        name: None,
        width: 44,
        height: 44,
        flags: 0x0200,
        favorite: false,
        trash: false,
        provenance: Provenance::bag_with_id(collection, id, crc),
    }
}

fn cache_entry(id: u32, crc: u32, origin: &str) -> CatalogEntry {
    CatalogEntry {
        id,
        crc,
        name: None,
        width: 44,
        height: 44,
        flags: 0x0200,
        favorite: false,
        trash: false,
        provenance: Provenance::cache(origin),
    }
}

#[test]
fn the_json_payload_drops_cache_sourced_entries() {
    let bag = entry(7, 9, Provenance::bag_with_id("My Bag", 7, 9));
    let cache = entry(8, 10, Provenance::cache("PropBag.bundle:/tmp/example"));
    let json = bag_entries_json(&[&bag, &cache]);
    assert!(json.contains("{\"id\":7,\"crc\":9"));
    assert!(!json.contains("\"id\":8"), "a cache entry must never appear");
    assert!(json.contains("\"collection\":\"My Bag\""));
    assert!(json.contains("\"source\":\"bag\""));
    assert!(!json.contains("null"));
}

#[test]
fn the_cache_key_matches_the_bag_thumb_cache_naming() {
    assert_eq!(
        thumbnail_cache_name(0x3a3a_d1f7, 0x5051_93c2),
        "3A3AD1F7_505193C2.png"
    );
}

#[test]
fn entries_json_marks_bag_entries_with_their_collection_and_leaves_cache_untagged() {
    let bag = CatalogEntry {
        id: 7,
        crc: 9,
        name: Some("My Prop".to_string()),
        width: 44,
        height: 44,
        flags: 0x0200,
        favorite: false,
        trash: false,
        provenance: Provenance::bag_with_id("My Bag", 7, 9),
    };
    let cache = CatalogEntry {
        id: 8,
        crc: 10,
        name: None,
        width: 1,
        height: 2,
        flags: 0,
        favorite: false,
        trash: false,
        provenance: Provenance::cache("PropBag.bundle:/tmp/example"),
    };
    let json = entries_json(&[&bag, &cache]);
    assert_eq!(
        json,
        [
            "{\"props\":[",
            "{\"id\":7,\"crc\":9,\"name\":\"My Prop\",\"w\":44,\"h\":44,\"flags\":512,",
            "\"fav\":false,\"trash\":false,\"collection\":\"My Bag\"},",
            "{\"id\":8,\"crc\":10,\"w\":1,\"h\":2,\"flags\":0,\"fav\":false,\"trash\":false}",
            "]}",
        ]
        .concat()
    );
}

#[test]
fn the_constructors_tag_the_right_side_and_expose_their_fields() {
    let bag = Provenance::bag_with_id("My Bag", 7, 9);
    assert!(bag.is_bag());
    assert!(!bag.is_cache());
    assert_eq!(bag.collection(), Some("My Bag"));
    assert_eq!(bag.origin(), None);
    assert_eq!(bag.key(), Some(PropKey::new(7, 9)));

    let cache = Provenance::cache("PropBag.bundle");
    assert!(cache.is_cache());
    assert!(!cache.is_bag());
    assert_eq!(cache.origin(), Some("PropBag.bundle"));
    assert_eq!(cache.collection(), None);
    assert_eq!(cache.key(), None);
}

#[test]
fn bag_listing_never_promotes_a_lone_cache_entry() {
    let cache = cache_entry(0x0cac_0001, 0xaaaa_0001, "room render");
    assert!(bag_listing(std::slice::from_ref(&cache)).is_empty());
    assert!(cache.provenance.is_cache());
}

#[test]
fn merge_resolves_a_bag_and_cache_collision_to_one_bag_entry() {
    let bag = bag_entry(7, 9, "My Bag");
    let cache = cache_entry(7, 9, "PropBag.bundle:/tmp/example");
    let merged = merge_entries(vec![bag], vec![cache]);
    assert_eq!(merged.len(), 1, "the key must appear exactly once");
    assert!(merged[0].provenance.is_bag());
    assert_eq!(merged[0].provenance.collection(), Some("My Bag"));
    assert_eq!(bag_listing(&merged).len(), 1);
}

#[test]
fn merge_keeps_cache_only_entries_out_of_the_listing_but_in_the_render_list() {
    let merged = merge_entries(
        vec![bag_entry(7, 9, "My Bag")],
        vec![cache_entry(0x0cac_0001, 1, "PropBag.bundle")],
    );
    assert_eq!(merged.len(), 2, "the renderer keeps the cache entry");
    let listing = bag_listing(&merged);
    assert_eq!(listing.len(), 1);
    assert_eq!((listing[0].id, listing[0].crc), (7, 9));
}

#[test]
fn merge_deduplicates_the_same_key_across_two_bag_collections() {
    let merged = merge_entries(
        vec![bag_entry(7, 9, "My Bag"), bag_entry(7, 9, "shelf:Legacy.PRP")],
        Vec::new(),
    );
    assert_eq!(merged.len(), 1);
    assert_eq!(merged[0].provenance.collection(), Some("My Bag"));
}

fn paged(id: u32, crc: u32) -> CatalogEntry {
    CatalogEntry {
        id,
        crc,
        name: None,
        width: 1,
        height: 1,
        flags: 0,
        favorite: false,
        trash: false,
        provenance: Provenance::bag_with_id("My Bag", id, crc),
    }
}

fn key(id: u32) -> PropKey {
    PropKey::new(id as i32, 1)
}

#[test]
fn page_slice_clamps_at_both_ends_and_reports_more() {
    let entries: Vec<CatalogEntry> = (0..10).map(|id| paged(id, 1)).collect();
    let (window, page) = page_slice(&entries, 3, 4);
    assert_eq!(window.len(), 4);
    assert_eq!(page.total, 10);
    assert_eq!(page.returned, 4);
    assert!(page.has_more());

    let (window, page) = page_slice(&entries, 8, 4);
    assert_eq!(window.len(), 2);
    assert_eq!(page.end(), 10);
    assert!(!page.has_more());

    let (window, page) = page_slice(&entries, 99, 4);
    assert!(window.is_empty());
    assert!(page.is_empty());
}

#[test]
fn page_in_collection_filters_before_cutting() {
    let entries = vec![paged(0, 1), paged(1, 1), paged(2, 1), paged(3, 1)];
    let (window, page) = page_in_collection(&entries, "My Bag", 1, 2);
    assert_eq!(window.len(), 2);
    assert_eq!(page.total, 4);
    assert_eq!(count_in_collection(&entries, "My Bag"), 4);
    assert_eq!(count_in_collection(&entries, "Other"), 0);
}

#[test]
fn the_lru_evicts_the_least_recently_used_at_the_entry_cap() {
    let mut cache = ThumbnailCache::with_caps(2, usize::MAX);
    cache.insert(key(1), vec![1]);
    cache.insert(key(2), vec![2]);
    assert_eq!(cache.get(key(1)), Some(&[1u8][..]), "1 is now most recent");
    cache.insert(key(3), vec![3]);
    assert_eq!(cache.len(), 2);
    assert!(!cache.contains(key(2)), "the least recent entry was evicted");
    assert!(cache.contains(key(1)));
    assert!(cache.contains(key(3)));
    assert_eq!(cache.evictions(), 1);
}

#[test]
fn an_oversized_thumbnail_is_refused_not_admitted() {
    let mut cache = ThumbnailCache::with_caps(8, 4);
    cache.insert(key(1), vec![0; 5]);
    assert!(cache.is_empty());
    assert_eq!(cache.rejected(), 1);
    cache.insert(key(2), vec![0; 4]);
    assert_eq!(cache.len(), 1);
    assert_eq!(cache.memory_bytes(), 4);
}

#[test]
fn a_zero_byte_cap_disables_only_the_byte_limit() {
    let mut cache = ThumbnailCache::with_caps(2, 0);
    cache.insert(key(1), vec![0u8; 100]);
    cache.insert(key(2), vec![0u8; 100]);
    assert_eq!(cache.len(), 2);
    assert_eq!(cache.rejected(), 0);
    cache.insert(key(3), vec![0u8; 100]);
    assert_eq!(cache.len(), 2);
    assert!(!cache.contains(key(1)));
    assert!(cache.contains(key(3)));
    assert_eq!(cache.evictions(), 1);
}

#[test]
fn a_zero_entry_cap_disables_the_cache() {
    let mut cache = ThumbnailCache::with_caps(0, 1000);
    cache.insert(key(1), vec![0u8; 10]);
    assert_eq!(cache.len(), 0);
}

#[test]
fn a_page_clamps_what_it_returns_to_the_total() {
    let page = CatalogPage::new(8, 4, 10, 5);
    assert_eq!(page.returned, 2);
    assert_eq!(page.end(), 10);
    assert!(!page.has_more());
    assert_eq!(CatalogPage::new(12, 4, 10, 3).returned, 0);
    assert_eq!(CatalogPage::new(2, 4, 10, 4).returned, 4);
}
