//! Bag provenance: which catalog entries are bag-sourced and which are cache.
//!
//! * **Bag** — the prop is listed by a collection the user owns: `My Bag`, or a
//!   read-only shelf `.prp` in the bag folder. Only these may appear in a bag
//!   listing, each with the collection it came from and the `(id, crc)` key
//!   that collection listed.
//! * **Cache** — the prop was merely seen (the live `PropBag.bundle`, a prop
//!   fetched to draw a room). The renderer still needs those bytes, but a bag
//!   listing never shows one.
//!
//! Provenance is assigned by whatever produced the entry and is never
//! re-derived from `id`/`crc`.

use vstd::prelude::*;

use crate::catalog::CatalogEntry;
use crate::prp::PropKey;

verus! {

/// Where a catalog entry came from: a user-owned bag collection or the cache.
#[derive(Debug, Clone, PartialEq, Eq, Hash)]
pub enum Provenance {
    /// A prop listed by a collection the user owns.
    Bag {
        /// The owning collection's name.
        collection: String,
        /// The `(id, crc)` the collection listed.
        key: PropKey,
    },
    /// A prop the client only has cached: it may be rendered, never listed.
    Cache {
        /// A human-readable description of the cache that supplied the entry.
        origin: String,
    },
}

/// A copy of a string.
pub fn copy_string(s: &String) -> (r: String)
    ensures
        r == *s,
{
    s.clone()
}

impl Provenance {
    /// Bag provenance for `collection` and an explicit identity key.
    pub fn bag(collection: &str, key: PropKey) -> (r: Self)
        ensures
            r matches Provenance::Bag { collection: c, key: k } && c@ == collection@ && k == key,
    {
        Provenance::Bag { collection: String::from_str(collection), key }
    }

    /// Bag provenance for `collection`, building the key from the catalog's
    /// unsigned identity: the id is reinterpreted as the signed id a `.prp`
    /// record stores.
    pub fn bag_with_id(collection: &str, id: u32, crc: u32) -> (r: Self)
        ensures
            r matches Provenance::Bag { collection: c, key: k } && c@ == collection@ && k == (
            PropKey { id: id as i32, crc }),
    {
        Self::bag(collection, PropKey::new(id as i32, crc))
    }

    /// Cache provenance for the cache named by `origin`.
    pub fn cache(origin: &str) -> (r: Self)
        ensures
            r matches Provenance::Cache { origin: o } && o@ == origin@,
    {
        Provenance::Cache { origin: String::from_str(origin) }
    }

    /// Whether this entry is bag-sourced, and so may appear in a bag listing.
    pub fn is_bag(&self) -> (r: bool)
        ensures
            r == (*self is Bag),
    {
        match self {
            Provenance::Bag { .. } => true,
            Provenance::Cache { .. } => false,
        }
    }

    /// Whether this entry is cache-sourced, and so must stay out of bag
    /// listings.
    pub fn is_cache(&self) -> (r: bool)
        ensures
            r == (*self is Cache),
    {
        match self {
            Provenance::Cache { .. } => true,
            Provenance::Bag { .. } => false,
        }
    }

    /// The listed `(id, crc)` for a bag entry; `None` for a cache entry.
    pub fn key(&self) -> (r: Option<PropKey>)
        ensures
            r == (match *self {
                Provenance::Bag { key, .. } => Some(key),
                Provenance::Cache { .. } => None,
            }),
    {
        match self {
            Provenance::Bag { key, .. } => Some(*key),
            Provenance::Cache { .. } => None,
        }
    }

    /// The collection name for a bag entry; `None` for a cache entry.
    pub fn collection(&self) -> (r: Option<&str>)
        ensures
            match *self {
                Provenance::Bag { collection, .. } => r matches Some(s) && s@ == collection@,
                Provenance::Cache { .. } => r is None,
            },
    {
        match self {
            Provenance::Bag { collection, .. } => Some(collection.as_str()),
            Provenance::Cache { .. } => None,
        }
    }

    /// The cache origin for a cache entry; `None` for a bag entry.
    pub fn origin(&self) -> (r: Option<&str>)
        ensures
            match *self {
                Provenance::Cache { origin } => r matches Some(s) && s@ == origin@,
                Provenance::Bag { .. } => r is None,
            },
    {
        match self {
            Provenance::Cache { origin } => Some(origin.as_str()),
            Provenance::Bag { .. } => None,
        }
    }

    /// A copy of this provenance.
    pub fn duplicate(&self) -> (r: Self)
        ensures
            r == *self,
    {
        match self {
            Provenance::Bag { collection, key } => Provenance::Bag {
                collection: copy_string(collection),
                key: *key,
            },
            Provenance::Cache { origin } => Provenance::Cache { origin: copy_string(origin) },
        }
    }
}

/// The bag-sourced entries of a list, in order.
pub open spec fn bag_only(entries: Seq<CatalogEntry>) -> Seq<CatalogEntry>
    decreases entries.len(),
{
    if entries.len() == 0 {
        Seq::empty()
    } else if entries.last().provenance is Bag {
        bag_only(entries.drop_last()).push(entries.last())
    } else {
        bag_only(entries.drop_last())
    }
}

/// The entries a list of references points at.
pub open spec fn targets(refs: Seq<&CatalogEntry>) -> Seq<CatalogEntry> {
    Seq::new(refs.len(), |i: int| *refs[i])
}

/// The bag listing: only [`Provenance::Bag`] entries, in input order.
///
/// This is the one filter every bag surface goes through, so a cache-only prop
/// can never be listed even when a cache was merged into the entry set.
pub fn bag_listing(entries: &[CatalogEntry]) -> (r: Vec<&CatalogEntry>)
    ensures
        targets(r@) == bag_only(entries@),
{
    let mut out: Vec<&CatalogEntry> = Vec::new();
    let mut i: usize = 0;
    while i < entries.len()
        invariant
            i <= entries@.len(),
            targets(out@) == bag_only(entries@.subrange(0, i as int)),
        decreases entries@.len() - i,
    {
        let ghost before = targets(out@);
        let ghost prefix = entries@.subrange(0, i as int + 1);
        assert(prefix.drop_last() =~= entries@.subrange(0, i as int));
        if entries[i].provenance.is_bag() {
            out.push(&entries[i]);
            assert(targets(out@) =~= before.push(entries@[i as int]));
        }
        i = i + 1;
    }
    assert(entries@.subrange(0, i as int) =~= entries@);
    out
}

/// Whether an entry with this `(id, crc)` occurs in a list.
pub open spec fn has_key(entries: Seq<CatalogEntry>, id: u32, crc: u32) -> bool {
    exists|j: int| 0 <= j < entries.len() && entries[j].id == id && entries[j].crc == crc
}

/// The first entry of each `(id, crc)`, in order.
pub open spec fn first_of_each_key(entries: Seq<CatalogEntry>) -> Seq<CatalogEntry>
    decreases entries.len(),
{
    if entries.len() == 0 {
        Seq::empty()
    } else {
        let kept = first_of_each_key(entries.drop_last());
        let e = entries.last();
        if has_key(kept, e.id, e.crc) {
            kept
        } else {
            kept.push(e)
        }
    }
}

/// A copy of a catalog entry.
pub fn copy_entry(e: &CatalogEntry) -> (r: CatalogEntry)
    ensures
        r == *e,
{
    CatalogEntry {
        id: e.id,
        crc: e.crc,
        name: match &e.name {
            Some(n) => Some(copy_string(n)),
            None => None,
        },
        width: e.width,
        height: e.height,
        flags: e.flags,
        favorite: e.favorite,
        trash: e.trash,
        provenance: e.provenance.duplicate(),
    }
}

/// Whether `kept` already holds an entry with this `(id, crc)`.
fn holds_key(kept: &Vec<CatalogEntry>, id: u32, crc: u32) -> (r: bool)
    ensures
        r == has_key(kept@, id, crc),
{
    let mut j: usize = 0;
    while j < kept.len()
        invariant
            j <= kept@.len(),
            forall|k: int| 0 <= k < j ==> !(kept@[k].id == id && kept@[k].crc == crc),
        decreases kept@.len() - j,
    {
        if kept[j].id == id && kept[j].crc == crc {
            return true;
        }
        j = j + 1;
    }
    false
}

/// Combine bag collections and a cache into one render list.
///
/// Bag entries come first, in the order given; cache entries follow. Entries
/// are deduplicated by `(id, crc)`, so when the same key exists in both a bag
/// and the cache exactly one entry survives: the bag one.
pub fn merge_entries(bag: Vec<CatalogEntry>, cache: Vec<CatalogEntry>) -> (r: Vec<CatalogEntry>)
    ensures
        r@ == first_of_each_key(bag@ + cache@),
{
    let ghost all = bag@ + cache@;
    let mut merged: Vec<CatalogEntry> = Vec::new();
    let nb = bag.len();
    let nc = cache.len();
    let mut i: usize = 0;
    while i < nb
        invariant
            nb == bag@.len(),
            all == bag@ + cache@,
            i <= nb,
            merged@ == first_of_each_key(all.subrange(0, i as int)),
        decreases nb - i,
    {
        let e = &bag[i];
        assert(*e == all[i as int]);
        let ghost prefix = all.subrange(0, i as int + 1);
        assert(prefix.drop_last() =~= all.subrange(0, i as int));
        if !holds_key(&merged, e.id, e.crc) {
            merged.push(copy_entry(e));
        }
        i = i + 1;
    }
    let mut j: usize = 0;
    while j < nc
        invariant
            nb == bag@.len(),
            nc == cache@.len(),
            all == bag@ + cache@,
            j <= nc,
            merged@ == first_of_each_key(all.subrange(0, nb + j)),
        decreases nc - j,
    {
        let e = &cache[j];
        assert(*e == all[nb + j]);
        let ghost prefix = all.subrange(0, nb + j + 1);
        assert(prefix.drop_last() =~= all.subrange(0, nb + j));
        if !holds_key(&merged, e.id, e.crc) {
            merged.push(copy_entry(e));
        }
        j = j + 1;
    }
    assert(all.subrange(0, nb + j) =~= all);
    merged
}

} // verus!
