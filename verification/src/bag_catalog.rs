//! The bag catalog: the user's `.prp` collections aggregated into one browsable
//! list, plus the JSON payload and the on-demand thumbnails the picker
//! consumes.
//!
//! The catalog sits on the bag side of the bag/cache line: the caller hands in
//! the collections it already resolved ("My Bag" plus each shelf) as a name and
//! a parsed [`Roster`], and every entry this module produces is tagged
//! [`Provenance::Bag`]. [`bag_entries_json`] filters by provenance again, so
//! even a hand-built entry list cannot put a cached prop in the payload.
//!
//! # Aggregation
//!
//! One collection contributes the records of its declared `Prop` types, in
//! type-table then record order. Collections are visited in caller order and
//! entries are keyed by the full `(id, crc)` identity. When two collections
//! list the same key, the first wins and the repeat is counted
//! ([`BagCatalog::duplicates`]). A record dropped by the reader, or a `Prop`
//! record whose blob is shorter than the 12-byte header, is skipped and counted
//! ([`BagCatalog::skipped`]), never fatal.
//!
//! # Favourites and trash
//!
//! A collection's favourites are read from its `Fave` records: a run of 8-byte
//! little-endian `(id: i32, crc: u32)` specs. Trash is app-owned; the caller
//! supplies the trashed keys with [`BagCatalog::with_trash`].
//!
//! # Thumbnails
//!
//! [`BagCatalog::thumbnail_png`] decodes one prop blob on demand and returns
//! its PNG, serving the optional in-memory LRU first. The on-disk cache, named
//! by [`thumbnail_cache_name`], is read and written by the caller, which hands
//! a file it found to the lookup.

use vstd::prelude::*;

use std::collections::HashMap;

use crate::catalog::{entry_fields, entry_head, push_entry_fields, push_entry_head, CatalogEntry};
use crate::catalog_paging::{
    self, key_position, of_collection, spec_get, spec_insert, CacheView, CatalogPage,
    ThumbnailCache,
};
use crate::json::{escape_json_into, json_escape};
use crate::provenance::{bag_only, targets, Provenance};
use crate::prp::mutate::{kind_of, type_bounds};
use crate::prp::read::{le_i32, le_u32, records_view};
use crate::prp::{AssetType, AssetTypeRec, PropKey, PropRecord, RecordView, Roster, RosterView};
use crate::shelves::dim;
use crate::text::{push_char, push_str};

verus! {

/// Bytes of one `Fave` payload spec: a little-endian `(id: i32, crc: u32)` pair.
const FAVE_SPEC_LEN: usize = 8;

/// One caller-supplied bag collection: a display name and its parsed roster.
#[derive(Debug)]
pub struct BagCollection {
    name: String,
    roster: Roster,
}

impl BagCollection {
    /// The collection's name, for contracts.
    pub closed spec fn name_view(&self) -> Seq<char> {
        self.name@
    }

    /// The collection's roster, for contracts.
    pub closed spec fn roster_view(&self) -> RosterView {
        self.roster@
    }

    /// A collection named `name` backed by `roster`.
    pub fn new(name: &str, roster: Roster) -> (r: Self)
        ensures
            r.name_view() == name@,
            r.roster_view() == roster@,
    {
        BagCollection { name: String::from_str(name), roster }
    }

    /// The collection's display name.
    pub fn name(&self) -> (r: &str)
        ensures
            r@ == self.name_view(),
    {
        self.name.as_str()
    }

    /// The collection's parsed roster.
    pub fn roster(&self) -> (r: &Roster)
        ensures
            r@ == self.roster_view(),
    {
        &self.roster
    }
}

// ---------------------------------------------------------------------------
// Favourites
// ---------------------------------------------------------------------------

/// The identity a record carries.
pub open spec fn rec_key(r: RecordView) -> PropKey {
    PropKey { id: r.rec.id, crc: r.rec.crc }
}

/// The `j`-th 8-byte `(id, crc)` spec of a `Fave` payload.
pub open spec fn fave_spec_at(blob: Seq<u8>, j: int) -> PropKey {
    PropKey { id: le_i32(blob, 8 * j), crc: le_u32(blob, 8 * j + 4) }
}

/// Every whole spec of a `Fave` payload, in order; a trailing partial spec is
/// ignored.
pub open spec fn blob_specs(blob: Seq<u8>) -> Seq<PropKey> {
    Seq::new(blob.len() / 8, |j: int| fave_spec_at(blob, j))
}

/// The specs of records `start..end`, in record order.
pub open spec fn run_specs(records: Seq<RecordView>, start: int, end: int) -> Seq<PropKey>
    decreases end - start,
{
    if end <= start {
        Seq::empty()
    } else {
        run_specs(records, start, end - 1) + blob_specs(records[end - 1].blob)
    }
}

/// The specs carried by the `Fave` runs of the first `k` types.
pub open spec fn fave_specs(types: Seq<AssetTypeRec>, records: Seq<RecordView>, k: int) -> Seq<
    PropKey,
>
    decreases k,
{
    if k <= 0 {
        Seq::empty()
    } else {
        let bounds = type_bounds(types[k - 1], records.len() as int);
        fave_specs(types, records, k - 1) + if kind_of(types[k - 1]) == AssetType::Fave {
            run_specs(records, bounds.0, bounds.1)
        } else {
            Seq::empty()
        }
    }
}

/// The favourite keys a roster's `Fave` records carry, in table order.
pub open spec fn favorite_list(v: RosterView) -> Seq<PropKey> {
    fave_specs(v.types, v.records, v.types.len() as int)
}

/// Append every whole spec of one payload.
fn push_blob_specs(out: &mut Vec<PropKey>, blob: &[u8])
    ensures
        final(out)@ == old(out)@ + blob_specs(blob@),
{
    let len = blob.len();
    let n = len / FAVE_SPEC_LEN;
    let mut j: usize = 0;
    while j < n
        invariant
            len == blob@.len(),
            n == blob@.len() / 8,
            j <= n,
            out@ == old(out)@ + blob_specs(blob@).subrange(0, j as int),
        decreases n - j,
    {
        assert(j * 8 + 8 <= blob@.len()) by (nonlinear_arith)
            requires
                j < n,
                n == blob@.len() / 8,
        ;
        let at = j * FAVE_SPEC_LEN;
        let key = PropKey::new(
            crate::prp::read::word_i32(blob, at),
            crate::prp::read::word_u32(blob, at + 4),
        );
        out.push(key);
        assert(blob_specs(blob@).subrange(0, j as int + 1) =~= blob_specs(blob@).subrange(
            0,
            j as int,
        ).push(fave_spec_at(blob@, j as int)));
        j = j + 1;
    }
    assert(blob_specs(blob@).subrange(0, j as int) =~= blob_specs(blob@));
}

/// The half-open record range of one type, clamped to the records present;
/// `(0, 0)` when it is empty.
pub(crate) fn type_range(t: &AssetTypeRec, n: usize) -> (r: (usize, usize))
    ensures
        r.0 <= r.1 <= n,
        type_bounds(*t, n as int).0 < type_bounds(*t, n as int).1 ==> r.0 == type_bounds(
            *t,
            n as int,
        ).0 && r.1 == type_bounds(*t, n as int).1,
        type_bounds(*t, n as int).0 >= type_bounds(*t, n as int).1 ==> r.0 == r.1,
{
    let start: u64 = if t.first_asset < 0 {
        0
    } else {
        t.first_asset as u64
    };
    let count: u64 = if t.nbr_assets < 0 {
        0
    } else {
        t.nbr_assets as u64
    };
    let limit = n as u64;
    let end: u64 = if start + count < limit {
        start + count
    } else {
        limit
    };
    if start < end {
        (start as usize, end as usize)
    } else {
        (0, 0)
    }
}

/// An empty range of records has no specs, and a range is its prefix plus its
/// last record.
proof fn lemma_run_specs_empty(records: Seq<RecordView>, start: int, end: int)
    requires
        end <= start,
    ensures
        run_specs(records, start, end) == Seq::<PropKey>::empty(),
{
}

/// The favourite `(id, crc)` keys a roster's `Fave` records carry.
///
/// A `Fave` blob is a run of little-endian `(id: i32, crc: u32)` specs; the
/// size-0 sentinel contributes nothing. This only reads the record.
pub fn favorite_keys(roster: &Roster) -> (r: Vec<PropKey>)
    ensures
        r@ == favorite_list(roster@),
{
    let types = roster.types();
    let records = roster.records();
    let ghost rv = records_view(records@);
    let n = records.len();
    let mut out: Vec<PropKey> = Vec::new();
    let mut k: usize = 0;
    while k < types.len()
        invariant
            k <= types@.len(),
            types@ == roster@.types,
            rv == roster@.records,
            rv == records_view(records@),
            n == records@.len(),
            out@ == fave_specs(types@, rv, k as int),
        decreases types@.len() - k,
    {
        let t = &types[k];
        let ghost before = out@;
        let ghost bounds = type_bounds(*t, n as int);
        if t.kind() == AssetType::Fave {
            let (start, end) = type_range(t, n);
            let mut i: usize = start;
            while i < end
                invariant
                    start <= i <= end <= n,
                    n == records@.len(),
                    rv == records_view(records@),
                    bounds.0 < bounds.1 ==> (start as int == bounds.0 && end as int == bounds.1),
                    bounds.0 >= bounds.1 ==> start == end,
                    out@ == before + run_specs(rv, start as int, i as int),
                decreases end - i,
            {
                push_blob_specs(&mut out, records[i].blob.as_slice());
                assert(rv[i as int].blob == records@[i as int].blob@);
                assert(out@ =~= before + run_specs(rv, start as int, i as int + 1));
                i = i + 1;
            }
            proof {
                if bounds.0 >= bounds.1 {
                    lemma_run_specs_empty(rv, bounds.0, bounds.1);
                    lemma_run_specs_empty(rv, start as int, i as int);
                }
            }
            assert(out@ =~= before + run_specs(rv, bounds.0, bounds.1));
        }
        assert(out@ =~= fave_specs(types@, rv, k as int + 1));
        k = k + 1;
    }
    out
}

/// Whether a list of keys holds `key`.
fn keys_contain(keys: &[PropKey], key: PropKey) -> (r: bool)
    ensures
        r == keys@.contains(key),
{
    let mut i: usize = 0;
    while i < keys.len()
        invariant
            i <= keys@.len(),
            forall|j: int| 0 <= j < i ==> keys@[j] != key,
        decreases keys@.len() - i,
    {
        if keys[i] == key {
            assert(keys@[i as int] == key);
            return true;
        }
        i = i + 1;
    }
    false
}

// ---------------------------------------------------------------------------
// Aggregation
// ---------------------------------------------------------------------------

/// One catalogued record: the record, the collection it came from, whether the
/// collection lists it as a favourite, and where its blob lives.
pub struct Picked {
    /// The record.
    pub record: RecordView,
    /// The collection's name.
    pub collection: Seq<char>,
    /// Whether the collection's `Fave` records name it.
    pub favorite: bool,
    /// The collection's position in the caller's list.
    pub roster: int,
    /// The record's position in its roster.
    pub index: int,
}

/// What aggregation has gathered so far.
pub struct Tally {
    /// The catalogued records, in order.
    pub picked: Seq<Picked>,
    /// Records skipped as unusable.
    pub skipped: int,
    /// Records dropped as repeats of an earlier identity.
    pub duplicates: int,
}

/// The identities catalogued so far.
pub open spec fn picked_keys(p: Seq<Picked>) -> Seq<PropKey> {
    Seq::new(p.len(), |i: int| rec_key(p[i].record))
}

/// How many records a tally has accounted for.
pub open spec fn tally_total(t: Tally) -> int {
    t.picked.len() + t.skipped + t.duplicates
}

/// Aggregation of one record of a `Prop` run.
pub open spec fn step_record(
    st: Tally,
    collection: Seq<char>,
    favs: Seq<PropKey>,
    roster: int,
    index: int,
    r: RecordView,
) -> Tally {
    if r.header is None {
        Tally { skipped: st.skipped + 1, ..st }
    } else if picked_keys(st.picked).contains(rec_key(r)) {
        Tally { duplicates: st.duplicates + 1, ..st }
    } else {
        Tally {
            picked: st.picked.push(
                Picked {
                    record: r,
                    collection,
                    favorite: favs.contains(rec_key(r)),
                    roster,
                    index,
                },
            ),
            ..st
        }
    }
}

/// Aggregation of records `start..end` of one roster.
pub open spec fn fold_run(
    st: Tally,
    collection: Seq<char>,
    favs: Seq<PropKey>,
    roster: int,
    records: Seq<RecordView>,
    start: int,
    end: int,
) -> Tally
    decreases end - start,
{
    if end <= start {
        st
    } else {
        step_record(
            fold_run(st, collection, favs, roster, records, start, end - 1),
            collection,
            favs,
            roster,
            end - 1,
            records[end - 1],
        )
    }
}

/// Aggregation of the `Prop` runs of the first `k` types of one roster.
pub open spec fn fold_types(
    st: Tally,
    collection: Seq<char>,
    favs: Seq<PropKey>,
    roster: int,
    types: Seq<AssetTypeRec>,
    records: Seq<RecordView>,
    k: int,
) -> Tally
    decreases k,
{
    if k <= 0 {
        st
    } else {
        let prev = fold_types(st, collection, favs, roster, types, records, k - 1);
        if kind_of(types[k - 1]) == AssetType::Prop {
            let b = type_bounds(types[k - 1], records.len() as int);
            fold_run(prev, collection, favs, roster, records, b.0, b.1)
        } else {
            prev
        }
    }
}

/// Aggregation of one whole collection.
pub open spec fn fold_collection(st: Tally, roster: int, name: Seq<char>, v: RosterView) -> Tally {
    fold_types(
        Tally { skipped: st.skipped + v.dropped, ..st },
        name,
        favorite_list(v),
        roster,
        v.types,
        v.records,
        v.types.len() as int,
    )
}

/// Aggregation of the first `k` collections.
pub open spec fn fold_collections(cols: Seq<(Seq<char>, RosterView)>, k: int) -> Tally
    decreases k,
{
    if k <= 0 {
        Tally { picked: Seq::empty(), skipped: 0, duplicates: 0 }
    } else {
        fold_collection(fold_collections(cols, k - 1), k - 1, cols[k - 1].0, cols[k - 1].1)
    }
}

/// The records the `Prop` runs of the first `k` types cover, repeats counted.
pub open spec fn run_work(types: Seq<AssetTypeRec>, n: int, k: int) -> int
    decreases k,
{
    if k <= 0 {
        0
    } else {
        let b = type_bounds(types[k - 1], n);
        run_work(types, n, k - 1) + if kind_of(types[k - 1]) == AssetType::Prop && b.0 < b.1 {
            b.1 - b.0
        } else {
            0
        }
    }
}

/// The records aggregation accounts for in the first `k` collections.
pub open spec fn cols_work(cols: Seq<(Seq<char>, RosterView)>, k: int) -> int
    decreases k,
{
    if k <= 0 {
        0
    } else {
        cols_work(cols, k - 1) + cols[k - 1].1.dropped + run_work(
            cols[k - 1].1.types,
            cols[k - 1].1.records.len() as int,
            cols[k - 1].1.types.len() as int,
        )
    }
}

/// The name and roster of each collection.
pub open spec fn collections_view(cols: Seq<BagCollection>) -> Seq<(Seq<char>, RosterView)> {
    Seq::new(cols.len(), |i: int| (cols[i].name_view(), cols[i].roster_view()))
}

/// The entry one catalogued record becomes.
pub open spec fn picked_entry(p: Picked, e: CatalogEntry) -> bool {
    &&& crate::shelves::entry_of(p.record, p.collection, CatalogEntry { favorite: false, ..e })
    &&& e.favorite == p.favorite
}

proof fn lemma_fold_run_total(
    st: Tally,
    collection: Seq<char>,
    favs: Seq<PropKey>,
    roster: int,
    records: Seq<RecordView>,
    start: int,
    end: int,
)
    ensures
        tally_total(fold_run(st, collection, favs, roster, records, start, end)) == tally_total(st)
            + if start < end {
            end - start
        } else {
            0
        },
    decreases end - start,
{
    if start < end {
        lemma_fold_run_total(st, collection, favs, roster, records, start, end - 1);
    }
}

proof fn lemma_fold_types_total(
    st: Tally,
    collection: Seq<char>,
    favs: Seq<PropKey>,
    roster: int,
    types: Seq<AssetTypeRec>,
    records: Seq<RecordView>,
    k: int,
)
    ensures
        tally_total(fold_types(st, collection, favs, roster, types, records, k)) == tally_total(st)
            + run_work(types, records.len() as int, k),
    decreases k,
{
    if k > 0 {
        lemma_fold_types_total(st, collection, favs, roster, types, records, k - 1);
        let prev = fold_types(st, collection, favs, roster, types, records, k - 1);
        let b = type_bounds(types[k - 1], records.len() as int);
        lemma_fold_run_total(prev, collection, favs, roster, records, b.0, b.1);
    }
}

proof fn lemma_run_work_mono(types: Seq<AssetTypeRec>, n: int, j: int, k: int)
    requires
        j <= k,
    ensures
        run_work(types, n, j) <= run_work(types, n, k),
    decreases k - j,
{
    if j < k {
        lemma_run_work_mono(types, n, j, k - 1);
    }
}

proof fn lemma_cols_work_mono(cols: Seq<(Seq<char>, RosterView)>, j: int, k: int)
    requires
        j <= k,
    ensures
        cols_work(cols, j) <= cols_work(cols, k),
    decreases k - j,
{
    if j < k {
        lemma_cols_work_mono(cols, j, k - 1);
        if k > 0 {
            lemma_run_work_mono(
                cols[k - 1].1.types,
                cols[k - 1].1.records.len() as int,
                0,
                cols[k - 1].1.types.len() as int,
            );
        }
    }
}

proof fn lemma_fold_collections_total(cols: Seq<(Seq<char>, RosterView)>, k: int)
    ensures
        tally_total(fold_collections(cols, k)) == cols_work(cols, k),
    decreases k,
{
    if k > 0 {
        lemma_fold_collections_total(cols, k - 1);
        let prev = fold_collections(cols, k - 1);
        let v = cols[k - 1].1;
        lemma_fold_types_total(
            Tally { skipped: prev.skipped + v.dropped, ..prev },
            cols[k - 1].0,
            favorite_list(v),
            k - 1,
            v.types,
            v.records,
            v.types.len() as int,
        );
    }
}

/// The number a key is filed under in the identity index: injective over
/// `(id, crc)`.
pub open spec fn key_code(k: PropKey) -> u64 {
    ((k.id as int + 0x8000_0000) * 0x1_0000_0000 + k.crc as int) as u64
}

fn code_of(k: PropKey) -> (r: u64)
    ensures
        r == key_code(k),
{
    let high: u64 = (k.id as i64 + 2147483648) as u64;
    assert(high < 0x1_0000_0000);
    assert(high * 0x1_0000_0000 + k.crc <= u64::MAX) by (nonlinear_arith)
        requires
            high < 0x1_0000_0000,
            k.crc < 0x1_0000_0000,
    ;
    high * 4294967296 + (k.crc as u64)
}

proof fn lemma_code_injective(a: PropKey, b: PropKey)
    requires
        key_code(a) == key_code(b),
    ensures
        a == b,
{
    let ha = a.id as int + 0x8000_0000;
    let hb = b.id as int + 0x8000_0000;
    assert(0 <= ha < 0x1_0000_0000);
    assert(0 <= hb < 0x1_0000_0000);
    assert(ha * 0x1_0000_0000 + a.crc <= u64::MAX) by (nonlinear_arith)
        requires
            0 <= ha < 0x1_0000_0000,
            a.crc < 0x1_0000_0000,
    ;
    assert(hb * 0x1_0000_0000 + b.crc <= u64::MAX) by (nonlinear_arith)
        requires
            0 <= hb < 0x1_0000_0000,
            b.crc < 0x1_0000_0000,
    ;
    assert(ha == hb && a.crc == b.crc) by (nonlinear_arith)
        requires
            ha * 0x1_0000_0000 + a.crc == hb * 0x1_0000_0000 + b.crc,
            0 <= a.crc < 0x1_0000_0000,
            0 <= b.crc < 0x1_0000_0000,
    ;
}

/// Every catalogued record came from the first `k` collections and is the
/// record found at its recorded position.
pub open spec fn picked_from(t: Tally, cols: Seq<(Seq<char>, RosterView)>, k: int) -> bool {
    forall|i: int|
        0 <= i < t.picked.len() ==> {
            let p = #[trigger] t.picked[i];
            &&& 0 <= p.roster < k
            &&& k <= cols.len()
            &&& 0 <= p.index < cols[p.roster].1.records.len()
            &&& p.record == cols[p.roster].1.records[p.index]
        }
}

proof fn lemma_fold_run_from(
    st: Tally,
    cols: Seq<(Seq<char>, RosterView)>,
    k: int,
    collection: Seq<char>,
    favs: Seq<PropKey>,
    start: int,
    end: int,
)
    requires
        0 < k <= cols.len(),
        picked_from(st, cols, k),
        0 <= start,
        end <= cols[k - 1].1.records.len(),
    ensures
        picked_from(fold_run(st, collection, favs, k - 1, cols[k - 1].1.records, start, end), cols, k),
    decreases end - start,
{
    if start < end {
        lemma_fold_run_from(st, cols, k, collection, favs, start, end - 1);
    }
}

proof fn lemma_fold_types_from(
    st: Tally,
    cols: Seq<(Seq<char>, RosterView)>,
    k: int,
    collection: Seq<char>,
    favs: Seq<PropKey>,
    j: int,
)
    requires
        0 < k <= cols.len(),
        picked_from(st, cols, k),
    ensures
        picked_from(
            fold_types(st, collection, favs, k - 1, cols[k - 1].1.types, cols[k - 1].1.records, j),
            cols,
            k,
        ),
    decreases j,
{
    if j > 0 {
        lemma_fold_types_from(st, cols, k, collection, favs, j - 1);
        let v = cols[k - 1].1;
        let prev = fold_types(st, collection, favs, k - 1, v.types, v.records, j - 1);
        if kind_of(v.types[j - 1]) == AssetType::Prop {
            let b = type_bounds(v.types[j - 1], v.records.len() as int);
            lemma_fold_run_from(prev, cols, k, collection, favs, b.0, b.1);
        }
    }
}

proof fn lemma_fold_collections_from(cols: Seq<(Seq<char>, RosterView)>, k: int)
    requires
        0 <= k <= cols.len(),
    ensures
        picked_from(fold_collections(cols, k), cols, k),
    decreases k,
{
    if k > 0 {
        lemma_fold_collections_from(cols, k - 1);
        let prev = fold_collections(cols, k - 1);
        let v = cols[k - 1].1;
        let st = Tally { skipped: prev.skipped + v.dropped, ..prev };
        assert(picked_from(st, cols, k));
        lemma_fold_types_from(st, cols, k, cols[k - 1].0, favorite_list(v), v.types.len() as int);
    }
}

/// The catalog being built: its entries, where each came from, the identity
/// index and the counters.
struct Gathered {
    entries: Vec<CatalogEntry>,
    sources: Vec<(usize, usize)>,
    identities: HashMap<u64, usize>,
    skipped: usize,
    duplicates: usize,
}

/// The catalog being built holds what a tally describes.
spec fn gathered_as(g: Gathered, t: Tally) -> bool {
    &&& g.entries@.len() == t.picked.len()
    &&& g.sources@.len() == t.picked.len()
    &&& g.skipped == t.skipped
    &&& g.duplicates == t.duplicates
    &&& forall|i: int|
        0 <= i < t.picked.len() ==> {
            &&& picked_entry(t.picked[i], #[trigger] g.entries@[i])
            &&& g.sources@[i].0 == t.picked[i].roster
            &&& g.sources@[i].1 == t.picked[i].index
        }
    &&& forall|i: int|
        0 <= i < t.picked.len() ==> {
            &&& g.identities@.contains_key(key_code(rec_key(#[trigger] t.picked[i].record)))
            &&& g.identities@[key_code(rec_key(t.picked[i].record))] == i
        }
    &&& forall|c: u64|
        #[trigger] g.identities@.contains_key(c) ==> exists|i: int|
            0 <= i < t.picked.len() && key_code(rec_key(#[trigger] t.picked[i].record)) == c
}

/// Aggregate one record.
fn gather_record(
    g: &mut Gathered,
    Ghost(t): Ghost<Tally>,
    name: &str,
    favs: &Vec<PropKey>,
    roster: usize,
    index: usize,
    record: &PropRecord,
)
    requires
        gathered_as(*old(g), t),
        tally_total(t) < usize::MAX,
    ensures
        gathered_as(*final(g), step_record(t, name@, favs@, roster as int, index as int, record@)),
{
    let header = match record.header {
        Some(h) => h,
        None => {
            g.skipped = g.skipped + 1;
            return;
        },
    };
    let key = record.key();
    let code = code_of(key);
    if g.identities.contains_key(&code) {
        proof {
            let i = choose|i: int|
                0 <= i < t.picked.len() && key_code(rec_key(#[trigger] t.picked[i].record))
                    == code;
            lemma_code_injective(rec_key(t.picked[i].record), key);
            assert(picked_keys(t.picked)[i] == rec_key(record@));
        }
        g.duplicates = g.duplicates + 1;
        return;
    }
    proof {
        if picked_keys(t.picked).contains(rec_key(record@)) {
            let i = choose|i: int|
                0 <= i < picked_keys(t.picked).len() && picked_keys(t.picked)[i] == rec_key(
                    record@,
                );
            assert(g.identities@.contains_key(key_code(rec_key(t.picked[i].record))));
        }
    }
    let favorite = keys_contain(favs.as_slice(), key);
    let mut entry = crate::shelves::catalog_entry(record, name);
    entry.favorite = favorite;
    let ghost old_g = *g;
    let position = g.entries.len();
    g.entries.push(entry);
    g.sources.push((roster, index));
    g.identities.insert(code, position);
    proof {
        let t2 = step_record(t, name@, favs@, roster as int, index as int, record@);
        assert(t2.picked.len() == t.picked.len() + 1);
        assert forall|i: int| 0 <= i < t2.picked.len() implies {
            &&& g.identities@.contains_key(key_code(rec_key(#[trigger] t2.picked[i].record)))
            &&& g.identities@[key_code(rec_key(t2.picked[i].record))] == i
        } by {
            if i < t.picked.len() {
                if key_code(rec_key(t2.picked[i].record)) == code {
                    lemma_code_injective(rec_key(t2.picked[i].record), key);
                    assert(picked_keys(t.picked)[i] == rec_key(record@));
                }
            }
        }
        assert forall|c: u64| #[trigger] g.identities@.contains_key(c) implies exists|i: int|
            0 <= i < t2.picked.len() && key_code(rec_key(#[trigger] t2.picked[i].record)) == c by {
            if c == code {
                assert(key_code(rec_key(t2.picked[t.picked.len() as int].record)) == c);
            } else {
                assert(old_g.identities@.contains_key(c));
                let i = choose|i: int|
                    0 <= i < t.picked.len() && key_code(rec_key(#[trigger] t.picked[i].record))
                        == c;
                assert(t2.picked[i] == t.picked[i]);
            }
        }
        assert forall|i: int| 0 <= i < t2.picked.len() implies {
            &&& picked_entry(t2.picked[i], #[trigger] g.entries@[i])
            &&& g.sources@[i].0 == t2.picked[i].roster
            &&& g.sources@[i].1 == t2.picked[i].index
        } by {
            if i < t.picked.len() {
                assert(g.entries@[i] == old_g.entries@[i]);
            }
        }
    }
}

/// Aggregate records `start..end` of one roster.
fn gather_run(
    g: &mut Gathered,
    Ghost(t): Ghost<Tally>,
    name: &str,
    favs: &Vec<PropKey>,
    roster: usize,
    records: &[PropRecord],
    start: usize,
    end: usize,
)
    requires
        gathered_as(*old(g), t),
        start <= end <= records@.len(),
        tally_total(t) + (end - start) <= usize::MAX,
    ensures
        gathered_as(
            *final(g),
            fold_run(t, name@, favs@, roster as int, records_view(records@), start as int, end as int),
        ),
{
    let ghost rv = records_view(records@);
    let mut i: usize = start;
    while i < end
        invariant
            start <= i <= end <= records@.len(),
            rv == records_view(records@),
            tally_total(t) + (end - start) <= usize::MAX,
            gathered_as(*g, fold_run(t, name@, favs@, roster as int, rv, start as int, i as int)),
        decreases end - i,
    {
        let ghost cur = fold_run(t, name@, favs@, roster as int, rv, start as int, i as int);
        proof {
            lemma_fold_run_total(t, name@, favs@, roster as int, rv, start as int, i as int);
        }
        gather_record(g, Ghost(cur), name, favs, roster, i, &records[i]);
        i = i + 1;
    }
}

/// Aggregate the `Prop` runs of one roster.
fn gather_types(
    g: &mut Gathered,
    Ghost(t): Ghost<Tally>,
    name: &str,
    favs: &Vec<PropKey>,
    roster_index: usize,
    roster: &Roster,
)
    requires
        gathered_as(*old(g), t),
        tally_total(t) + run_work(roster@.types, roster@.records.len() as int, roster@.types.len() as int)
            <= usize::MAX,
    ensures
        gathered_as(
            *final(g),
            fold_types(
                t,
                name@,
                favs@,
                roster_index as int,
                roster@.types,
                roster@.records,
                roster@.types.len() as int,
            ),
        ),
{
    let types = roster.types();
    let records = roster.records();
    let n = records.len();
    let ghost rv = records_view(records@);
    let ghost total = run_work(types@, n as int, types@.len() as int);
    let mut k: usize = 0;
    while k < types.len()
        invariant
            k <= types@.len(),
            types@ == roster@.types,
            rv == roster@.records,
            rv == records_view(records@),
            n == records@.len(),
            total == run_work(types@, n as int, types@.len() as int),
            tally_total(t) + total <= usize::MAX,
            gathered_as(*g, fold_types(t, name@, favs@, roster_index as int, types@, rv, k as int)),
        decreases types@.len() - k,
    {
        let ghost prev = fold_types(t, name@, favs@, roster_index as int, types@, rv, k as int);
        let ghost bounds = type_bounds(types@[k as int], n as int);
        proof {
            lemma_fold_types_total(t, name@, favs@, roster_index as int, types@, rv, k as int);
            lemma_run_work_mono(types@, n as int, k as int + 1, types@.len() as int);
        }
        if types[k].kind() == AssetType::Prop {
            let (start, end) = type_range(&types[k], n);
            gather_run(g, Ghost(prev), name, favs, roster_index, records, start, end);
            proof {
                if bounds.0 >= bounds.1 {
                    assert(fold_run(prev, name@, favs@, roster_index as int, rv, bounds.0, bounds.1)
                        == prev);
                    assert(fold_run(
                        prev,
                        name@,
                        favs@,
                        roster_index as int,
                        rv,
                        start as int,
                        end as int,
                    ) == prev);
                }
            }
        }
        k = k + 1;
    }
}

/// The aggregated view of every collection the caller supplied.
///
/// Holds each roster, so blobs can be decoded later without re-reading files,
/// one [`CatalogEntry`] per distinct `(id, crc)`, and the index that maps an
/// identity back to the record behind it. Every entry is bag-sourced by
/// construction.
#[derive(Debug)]
pub struct BagCatalog {
    rosters: Vec<Roster>,
    entries: Vec<CatalogEntry>,
    sources: Vec<(usize, usize)>,
    identities: HashMap<u64, usize>,
    skipped: usize,
    duplicates: usize,
    cache_dir: Option<String>,
    thumbnail_failures: usize,
    decodes: usize,
    thumbnail_cache: Option<ThumbnailCache>,
}

/// The abstract content of a catalog.
#[verifier::ext_equal]
pub struct CatalogView {
    /// The entries, in collection then record order.
    pub entries: Seq<CatalogEntry>,
    /// The identity of the record behind each entry.
    pub keys: Seq<PropKey>,
    /// The blob of the record behind each entry.
    pub blobs: Seq<Seq<u8>>,
    /// Records skipped as unusable.
    pub skipped: nat,
    /// Records dropped as repeats.
    pub duplicates: nat,
    /// The directory thumbnails are cached under, if any.
    pub cache_dir: Option<Seq<char>>,
    /// Thumbnail requests that failed to decode.
    pub failures: nat,
    /// Props decoded for a thumbnail.
    pub decodes: nat,
    /// The in-memory thumbnail cache, when enabled.
    pub cache: Option<CacheView>,
}

/// The record a source position points at.
spec fn src_record(rosters: Seq<Roster>, sources: Seq<(usize, usize)>, i: int) -> RecordView {
    rosters[sources[i].0 as int]@.records[sources[i].1 as int]
}

/// Every source points at a record of a kept roster, and the identity index
/// files each entry under its key.
spec fn index_ok(
    rosters: Seq<Roster>,
    sources: Seq<(usize, usize)>,
    identities: Map<u64, usize>,
) -> bool {
    &&& forall|i: int|
        0 <= i < sources.len() ==> {
            &&& (#[trigger] sources[i]).0 < rosters.len()
            &&& sources[i].1 < rosters[sources[i].0 as int]@.records.len()
        }
    &&& forall|i: int|
        0 <= i < sources.len() ==> {
            &&& identities.contains_key(key_code(rec_key(#[trigger] src_record(rosters, sources, i))))
            &&& identities[key_code(rec_key(src_record(rosters, sources, i)))] == i
        }
    &&& forall|c: u64|
        #[trigger] identities.contains_key(c) ==> exists|i: int|
            0 <= i < sources.len() && key_code(rec_key(#[trigger] src_record(rosters, sources, i)))
                == c
}

impl BagCatalog {
    /// Where the record behind entry `i` sits.
    closed spec fn record_at(&self, i: int) -> RecordView {
        src_record(self.rosters@, self.sources@, i)
    }

    /// The catalog's internal consistency.
    #[verifier::type_invariant]
    closed spec fn wf(&self) -> bool {
        &&& self.entries@.len() == self.sources@.len()
        &&& index_ok(self.rosters@, self.sources@, self.identities@)
    }
}

impl View for BagCatalog {
    type V = CatalogView;

    closed spec fn view(&self) -> CatalogView {
        CatalogView {
            entries: self.entries@,
            keys: Seq::new(self.sources@.len(), |i: int| rec_key(self.record_at(i))),
            blobs: Seq::new(self.sources@.len(), |i: int| self.record_at(i).blob),
            skipped: self.skipped as nat,
            duplicates: self.duplicates as nat,
            cache_dir: match self.cache_dir {
                Some(d) => Some(d@),
                None => None,
            },
            failures: self.thumbnail_failures as nat,
            decodes: self.decodes as nat,
            cache: match self.thumbnail_cache {
                Some(c) => Some(c@),
                None => None,
            },
        }
    }
}

/// What aggregating these collections gives.
pub open spec fn aggregated(cols: Seq<(Seq<char>, RosterView)>) -> Tally {
    fold_collections(cols, cols.len() as int)
}

/// A catalog holds what aggregating these collections gives.
pub open spec fn catalog_of(v: CatalogView, cols: Seq<(Seq<char>, RosterView)>) -> bool {
    let t = aggregated(cols);
    &&& v.entries.len() == t.picked.len()
    &&& forall|i: int|
        0 <= i < t.picked.len() ==> {
            &&& picked_entry(t.picked[i], #[trigger] v.entries[i])
            &&& v.keys[i] == rec_key(t.picked[i].record)
            &&& v.blobs[i] == t.picked[i].record.blob
        }
    &&& v.skipped == t.skipped
    &&& v.duplicates == t.duplicates
}

impl BagCatalog {
    /// Aggregate `collections` into one catalog.
    ///
    /// Visits the collections in order and keeps the first entry for each
    /// `(id, crc)`; later duplicates are counted, not repeated. Reads nothing
    /// from disk and never fails: a record without a usable header is skipped
    /// and counted.
    pub fn new(collections: Vec<BagCollection>) -> (r: Self)
        requires
            cols_work(collections_view(collections@), collections@.len() as int) <= usize::MAX,
        ensures
            catalog_of(r@, collections_view(collections@)),
            r@.cache_dir is None,
            r@.failures == 0,
            r@.decodes == 0,
            r@.cache is None,
    {
        let ghost cols = collections_view(collections@);
        let ghost ncols = collections@.len() as int;
        let mut rest = collections;
        let mut rosters: Vec<Roster> = Vec::new();
        let mut g = Gathered {
            entries: Vec::new(),
            sources: Vec::new(),
            identities: HashMap::new(),
            skipped: 0,
            duplicates: 0,
        };
        proof {
            assert(gathered_as(g, fold_collections(cols, 0)));
        }
        while rest.len() > 0
            invariant
                rosters@.len() + rest@.len() == ncols,
                cols.len() == ncols,
                cols_work(cols, ncols) <= usize::MAX,
                forall|j: int|
                    0 <= j < rest@.len() ==> (#[trigger] rest@[j]).name_view() == cols[rosters@.len()
                        + j].0 && rest@[j].roster_view() == cols[rosters@.len() + j].1,
                forall|j: int| 0 <= j < rosters@.len() ==> (#[trigger] rosters@[j])@ == cols[j].1,
                gathered_as(g, fold_collections(cols, rosters@.len() as int)),
            decreases rest@.len(),
        {
            let ghost k = rosters@.len() as int;
            let ghost before = fold_collections(cols, k);
            let collection = rest.remove(0);
            let BagCollection { name, roster } = collection;
            let ghost v = roster@;
            assert(v == cols[k].1 && name@ == cols[k].0);
            proof {
                lemma_fold_collections_total(cols, k);
                lemma_cols_work_mono(cols, k + 1, ncols);
                assert(cols_work(cols, k + 1) == cols_work(cols, k) + v.dropped + run_work(
                    v.types,
                    v.records.len() as int,
                    v.types.len() as int,
                ));
                lemma_run_work_mono(v.types, v.records.len() as int, 0, v.types.len() as int);
            }
            g.skipped = g.skipped + roster.dropped_records();
            let ghost st = Tally { skipped: before.skipped + v.dropped, ..before };
            assert(gathered_as(g, st));
            let favorites = favorite_keys(&roster);
            let roster_index = rosters.len();
            gather_types(&mut g, Ghost(st), name.as_str(), &favorites, roster_index, &roster);
            rosters.push(roster);
            assert(fold_collections(cols, k + 1) == fold_collection(before, k, cols[k].0, cols[k].1));
        }
        proof {
            lemma_fold_collections_from(cols, ncols);
        }
        let ghost t = fold_collections(cols, ncols);
        assert(rosters@.len() == ncols);
        assert forall|i: int| 0 <= i < g.sources@.len() implies {
            &&& (#[trigger] g.sources@[i]).0 < rosters@.len()
            &&& g.sources@[i].1 < rosters@[g.sources@[i].0 as int]@.records.len()
            &&& rosters@[g.sources@[i].0 as int]@.records[g.sources@[i].1 as int] == t.picked[i].record
        } by {
            let p = t.picked[i];
            assert(picked_entry(p, g.entries@[i]));
            assert(rosters@[p.roster]@ == cols[p.roster].1);
        }
        assert forall|i: int| 0 <= i < g.sources@.len() implies {
            &&& g.identities@.contains_key(
                key_code(rec_key(#[trigger] src_record(rosters@, g.sources@, i))),
            )
            &&& g.identities@[key_code(rec_key(src_record(rosters@, g.sources@, i)))] == i
        } by {
            assert(picked_entry(t.picked[i], g.entries@[i]));
            assert(g.sources@[i].0 < rosters@.len());
        }
        assert forall|c: u64| #[trigger] g.identities@.contains_key(c) implies exists|i: int|
            0 <= i < g.sources@.len() && key_code(
                rec_key(#[trigger] src_record(rosters@, g.sources@, i)),
            ) == c by {
            let i = choose|i: int|
                0 <= i < t.picked.len() && key_code(rec_key(#[trigger] t.picked[i].record)) == c;
            assert(picked_entry(t.picked[i], g.entries@[i]));
            assert(g.sources@[i].0 < rosters@.len());
            assert(src_record(rosters@, g.sources@, i) == t.picked[i].record);
        }
        assert(index_ok(rosters@, g.sources@, g.identities@));
        let r = BagCatalog {
            rosters,
            entries: g.entries,
            sources: g.sources,
            identities: g.identities,
            skipped: g.skipped,
            duplicates: g.duplicates,
            cache_dir: None,
            thumbnail_failures: 0,
            decodes: 0,
            thumbnail_cache: None,
        };
        r
    }
}

// ---------------------------------------------------------------------------
// Thumbnails
// ---------------------------------------------------------------------------

/// The PNG thumbnail of one prop blob: for a big prop its frame 0 as a PNG;
/// otherwise the decoded image as a PNG; `None` when the blob does not decode
/// or the encoder refuses it.
pub open spec fn thumbnail_of(blob: Seq<u8>) -> Option<Seq<u8>> {
    if crate::prop_animated_recon::spec_is_big_prop(blob) {
        crate::animated::big_thumbnail(blob)
    } else {
        match crate::spec_decode(blob) {
            Some(Ok(p)) => crate::png_codec::png_encoded(p.image.width, p.image.height, p.image.rgba),
            _ => None,
        }
    }
}

/// A PNG thumbnail for one prop blob; never fails, `None` is the failure.
///
/// A big/animated prop is rendered from its frame 0, so a multi-frame
/// record gets a thumbnail instead of a decode failure.
pub fn thumbnail_png(blob: &[u8]) -> (r: Option<Vec<u8>>)
    ensures
        match thumbnail_of(blob@) {
            Some(b) => r matches Some(v) && v@ == b,
            None => r is None,
        },
{
    if crate::animated::is_big_prop(blob) {
        return crate::animated::thumbnail_png(blob);
    }
    match crate::decode(blob) {
        Ok(prop) => match prop.image.to_png_bytes() {
            Ok(png) => Some(png),
            Err(_) => None,
        },
        Err(_) => None,
    }
}

/// The bytes a cache hit serves, if the in-memory cache holds `key`.
pub open spec fn cache_hit(v: CatalogView, key: PropKey) -> Option<Seq<u8>> {
    match v.cache {
        Some(c) => match key_position(c.entries, key, 0) {
            Some(p) => Some(c.entries[p].1),
            None => None,
        },
        None => None,
    }
}

/// The catalog after a lookup in its in-memory cache.
pub open spec fn after_lookup(v: CatalogView, key: PropKey) -> CatalogView {
    CatalogView {
        cache: match v.cache {
            Some(c) => Some(spec_get(c, key)),
            None => None,
        },
        ..v
    }
}

/// The catalog after remembering a thumbnail in its in-memory cache.
pub open spec fn remembered(v: CatalogView, key: PropKey, png: Seq<u8>) -> CatalogView {
    CatalogView {
        cache: match v.cache {
            Some(c) => Some(spec_insert(c, key, png)),
            None => None,
        },
        ..v
    }
}

/// A counter after one more event; it wraps like an atomic counter would.
pub open spec fn bumped(n: nat) -> nat {
    if n < usize::MAX {
        n + 1
    } else {
        0
    }
}

/// What one thumbnail request does: the catalog afterwards and the PNG
/// served, given what the on-disk cache held for the identity.
pub open spec fn thumbnail_step(v: CatalogView, key: PropKey, on_disk: Option<Seq<u8>>) -> (
    CatalogView,
    Option<Seq<u8>>,
) {
    let v1 = after_lookup(v, key);
    if cache_hit(v, key) is Some {
        (v1, cache_hit(v, key))
    } else if !v.keys.contains(key) {
        (v1, None)
    } else {
        let i = choose|i: int| 0 <= i < v.keys.len() && v.keys[i] == key;
        match on_disk {
            Some(b) => (remembered(v1, key, b), Some(b)),
            None => match thumbnail_of(v.blobs[i]) {
                None => (CatalogView { failures: bumped(v1.failures), ..v1 }, None),
                Some(png) => (
                    remembered(CatalogView { decodes: bumped(v1.decodes), ..v1 }, key, png),
                    Some(png),
                ),
            },
        }
    }
}

/// The view of optional bytes.
pub open spec fn opt_bytes(b: Option<Vec<u8>>) -> Option<Seq<u8>> {
    match b {
        Some(v) => Some(v@),
        None => None,
    }
}

/// Eight uppercase hexadecimal digits of a word.
pub open spec fn upper_hex8(v: u32) -> Seq<char> {
    seq![
        upper_digit((v as int / 0x1000_0000) % 16),
        upper_digit((v as int / 0x100_0000) % 16),
        upper_digit((v as int / 0x10_0000) % 16),
        upper_digit((v as int / 0x1_0000) % 16),
        upper_digit((v as int / 0x1000) % 16),
        upper_digit((v as int / 0x100) % 16),
        upper_digit((v as int / 0x10) % 16),
        upper_digit(v as int % 16),
    ]
}

/// An uppercase hexadecimal digit.
pub open spec fn upper_digit(n: int) -> char {
    if n < 10 {
        ((n + 48) as u32) as char
    } else {
        ((n - 10 + 65) as u32) as char
    }
}

/// The cache file name of an identity pair.
pub open spec fn cache_name(id: u32, crc: u32) -> Seq<char> {
    upper_hex8(id) + seq!['_'] + upper_hex8(crc) + ".png"@
}

/// Append one uppercase hexadecimal digit.
fn push_upper_digit(out: &mut String, d: u32)
    requires
        d < 16,
    ensures
        final(out)@ == old(out)@.push(upper_digit(d as int)),
{
    let c = if d < 10 {
        ((d + 48) as u8) as char
    } else {
        ((d - 10 + 65) as u8) as char
    };
    push_char(out, c);
}

/// Append eight uppercase hexadecimal digits.
fn push_upper_hex8(out: &mut String, v: u32)
    ensures
        final(out)@ == old(out)@ + upper_hex8(v),
{
    push_upper_digit(out, (v / 0x1000_0000) % 16);
    push_upper_digit(out, (v / 0x100_0000) % 16);
    push_upper_digit(out, (v / 0x10_0000) % 16);
    push_upper_digit(out, (v / 0x1_0000) % 16);
    push_upper_digit(out, (v / 0x1000) % 16);
    push_upper_digit(out, (v / 0x100) % 16);
    push_upper_digit(out, (v / 0x10) % 16);
    push_upper_digit(out, v % 16);
    assert(out@ =~= old(out)@ + upper_hex8(v));
}

/// The cache file name for an identity pair: `<id:08X>_<crc:08X>.png`.
pub fn thumbnail_cache_name(id: u32, crc: u32) -> (r: String)
    ensures
        r@ == cache_name(id, crc),
{
    let mut out = String::new();
    push_upper_hex8(&mut out, id);
    push_char(&mut out, '_');
    push_upper_hex8(&mut out, crc);
    push_str(&mut out, ".png");
    assert(out@ =~= cache_name(id, crc));
    out
}

// ---------------------------------------------------------------------------
// JSON
// ---------------------------------------------------------------------------

/// One bag entry of the picker's payload.
pub open spec fn bag_entry_json(e: CatalogEntry) -> Seq<char> {
    entry_head(e) + entry_fields(e) + ",\"collection\":\""@ + json_escape(
        crate::catalog::bag_collection(e.provenance),
    ) + "\",\"source\":\"bag\"}"@
}

/// Bag entries joined with commas.
pub open spec fn bag_body(es: Seq<CatalogEntry>) -> Seq<char>
    decreases es.len(),
{
    if es.len() == 0 {
        Seq::empty()
    } else if es.len() == 1 {
        bag_entry_json(es[0])
    } else {
        bag_body(es.drop_last()) + ","@ + bag_entry_json(es.last())
    }
}

/// The bag payload: bag-sourced entries only, in order.
pub open spec fn spec_bag_json(es: Seq<CatalogEntry>) -> Seq<char> {
    "{\"props\":["@ + bag_body(bag_only(es)) + "]}"@
}

proof fn lemma_concat_chain(
    m: Seq<char>,
    a: Seq<char>,
    b: Seq<char>,
    c: Seq<char>,
    d: Seq<char>,
    e: Seq<char>,
)
    ensures
        m + a + b + c + d + e == m + (a + b + c + d + e),
{
    assert(m + a + b + c + d + e =~= m + (a + b + c + d + e));
}

/// Append one bag entry; a cache entry appends nothing.
fn push_bag_entry(out: &mut String, e: &CatalogEntry, emitted: usize) -> (r: bool)
    ensures
        r == e.provenance is Bag,
        r ==> final(out)@ == old(out)@ + (if emitted > 0 {
            ","@
        } else {
            Seq::empty()
        }) + bag_entry_json(*e),
        !r ==> final(out)@ == old(out)@,
{
    match &e.provenance {
        Provenance::Bag { collection, .. } => {
            let ghost start = out@;
            if emitted > 0 {
                push_str(out, ",");
            }
            let ghost mid = out@;
            push_entry_head(out, e);
            let ghost a = out@;
            push_entry_fields(out, e);
            let ghost b = out@;
            push_str(out, ",\"collection\":\"");
            let ghost c = out@;
            escape_json_into(collection.as_str(), out);
            let ghost d = out@;
            push_str(out, "\",\"source\":\"bag\"}");
            proof {
                lemma_concat_chain(
                    mid,
                    entry_head(*e),
                    entry_fields(*e),
                    ",\"collection\":\""@,
                    json_escape(collection@),
                    "\",\"source\":\"bag\"}"@,
                );
            }
            true
        },
        Provenance::Cache { .. } => false,
    }
}

proof fn lemma_bag_only_push(es: Seq<CatalogEntry>, e: CatalogEntry)
    ensures
        bag_only(es.push(e)) == if e.provenance is Bag {
            bag_only(es).push(e)
        } else {
            bag_only(es)
        },
{
    assert(es.push(e).drop_last() =~= es);
}

/// Serialise `entries` as the picker's JSON payload, bag-sourced entries only.
///
/// One object with a `props` array; each entry carries `id`, `crc`, optional
/// `name`, `w`, `h`, `flags`, `fav`, `trash`, `collection` and
/// `source:"bag"`. An entry tagged [`Provenance::Cache`] is dropped.
pub fn bag_entries_json(entries: &[&CatalogEntry]) -> (r: String)
    ensures
        r@ == spec_bag_json(targets(entries@)),
{
    let ghost es = targets(entries@);
    let mut out = String::new();
    push_str(&mut out, "{\"props\":[");
    let ghost head = out@;
    let mut emitted: usize = 0;
    let mut i: usize = 0;
    while i < entries.len()
        invariant
            i <= entries@.len(),
            es == targets(entries@),
            emitted == bag_only(es.subrange(0, i as int)).len(),
            emitted <= i,
            out@ == head + bag_body(bag_only(es.subrange(0, i as int))),
        decreases entries@.len() - i,
    {
        let ghost prev = bag_only(es.subrange(0, i as int));
        proof {
            assert(es.subrange(0, i as int + 1) =~= es.subrange(0, i as int).push(*entries@[i as int]));
            lemma_bag_only_push(es.subrange(0, i as int), *entries@[i as int]);
        }
        if push_bag_entry(&mut out, entries[i], emitted) {
            let ghost now = prev.push(*entries@[i as int]);
            assert(now.drop_last() =~= prev);
            emitted = emitted + 1;
        }
        i = i + 1;
    }
    assert(es.subrange(0, i as int) =~= es);
    push_str(&mut out, "]}");
    out
}

/// The same payload for a slice of entries.
fn bag_slice_json(entries: &[CatalogEntry]) -> (r: String)
    ensures
        r@ == spec_bag_json(entries@),
{
    let mut refs: Vec<&CatalogEntry> = Vec::new();
    let mut i: usize = 0;
    while i < entries.len()
        invariant
            i <= entries@.len(),
            targets(refs@) == entries@.subrange(0, i as int),
        decreases entries@.len() - i,
    {
        let ghost before = targets(refs@);
        refs.push(&entries[i]);
        assert(targets(refs@) =~= before.push(entries@[i as int]));
        assert(entries@.subrange(0, i as int + 1) =~= entries@.subrange(0, i as int).push(
            entries@[i as int],
        ));
        i = i + 1;
    }
    assert(entries@.subrange(0, i as int) =~= entries@);
    bag_entries_json(refs.as_slice())
}

/// An entry with its trash flag raised when its identity is among `keys`.
pub open spec fn trashed_entry(e: CatalogEntry, keys: Seq<PropKey>) -> CatalogEntry {
    CatalogEntry {
        trash: e.trash || keys.contains(PropKey { id: e.id as i32, crc: e.crc }),
        ..e
    }
}

impl BagCatalog {
    /// Mark every entry whose `(id, crc)` is in `keys` as trashed. Unknown
    /// keys are ignored.
    pub fn with_trash(self, keys: &[PropKey]) -> (r: Self)
        ensures
            r@ == (CatalogView {
                entries: Seq::new(self@.entries.len(), |i: int| trashed_entry(self@.entries[i], keys@)),
                ..self@
            }),
    {
        let mut this = self;
        proof {
            use_type_invariant(&this);
        }
        let ghost old_entries = this.entries@;
        let mut marked: Vec<CatalogEntry> = Vec::new();
        let mut i: usize = 0;
        while i < this.entries.len()
            invariant
                i <= this.entries@.len(),
                this.entries@ == old_entries,
                marked@.len() == i,
                forall|j: int|
                    0 <= j < i ==> #[trigger] marked@[j] == trashed_entry(old_entries[j], keys@),
            decreases this.entries@.len() - i,
        {
            let e = &this.entries[i];
            let c = crate::provenance::copy_entry(e);
            if keys.len() > 0 && keys_contain(keys, PropKey::new(e.id as i32, e.crc)) {
                marked.push(CatalogEntry { trash: true, ..c });
            } else {
                proof {
                    if keys.len() == 0 {
                        assert(!keys@.contains(PropKey { id: e.id as i32, crc: e.crc }));
                    }
                }
                marked.push(c);
            }
            i = i + 1;
        }
        assert(marked@ =~= Seq::new(
            old_entries.len(),
            |i: int| trashed_entry(old_entries[i], keys@),
        ));
        this.entries = marked;
        assert(this@ =~= (CatalogView {
            entries: Seq::new(self@.entries.len(), |i: int| trashed_entry(self@.entries[i], keys@)),
            ..self@
        }));
        this
    }

    /// Cache thumbnails under `dir`. The catalog never assumes a location.
    pub fn with_cache_dir(self, dir: &str) -> (r: Self)
        ensures
            r@ == (CatalogView { cache_dir: Some(dir@), ..self@ }),
    {
        let mut this = self;
        proof {
            use_type_invariant(&this);
        }
        this.cache_dir = Some(String::from_str(dir));
        assert(this@ =~= (CatalogView { cache_dir: Some(dir@), ..self@ }));
        this
    }

    /// Retain decoded thumbnails in a bounded in-memory LRU of at most
    /// `capacity_entries` PNGs and `capacity_bytes` bytes.
    pub fn with_thumbnail_cache(self, capacity_entries: usize, capacity_bytes: usize) -> (r: Self)
        ensures
            r@.cache matches Some(c) && c.entries.len() == 0 && c.capacity_entries
                == capacity_entries && c.capacity_bytes == capacity_bytes && c.bytes == 0 && c.hits
                == 0 && c.misses == 0 && c.evictions == 0 && c.rejected == 0,
            r@ == (CatalogView { cache: r@.cache, ..self@ }),
    {
        let mut this = self;
        proof {
            use_type_invariant(&this);
        }
        this.thumbnail_cache = Some(ThumbnailCache::with_caps(capacity_entries, capacity_bytes));
        assert(this@ =~= (CatalogView { cache: this@.cache, ..self@ }));
        this
    }

    /// Retain decoded thumbnails with the default caps.
    pub fn with_default_thumbnail_cache(self) -> (r: Self)
        ensures
            r@.cache matches Some(c) && c.entries.len() == 0 && c.capacity_entries
                == catalog_paging::DEFAULT_THUMBNAIL_CACHE_ENTRIES && c.capacity_bytes
                == catalog_paging::DEFAULT_THUMBNAIL_CACHE_BYTES && c.bytes == 0 && c.hits == 0
                && c.misses == 0 && c.evictions == 0 && c.rejected == 0,
            r@ == (CatalogView { cache: r@.cache, ..self@ }),
    {
        self.with_thumbnail_cache(
            catalog_paging::DEFAULT_THUMBNAIL_CACHE_ENTRIES,
            catalog_paging::DEFAULT_THUMBNAIL_CACHE_BYTES,
        )
    }

    /// The entries, in collection then record order.
    pub fn entries(&self) -> (r: &[CatalogEntry])
        ensures
            r@ == self@.entries,
    {
        self.entries.as_slice()
    }

    /// Number of catalogued entries.
    pub fn len(&self) -> (r: usize)
        ensures
            r == self@.entries.len(),
    {
        self.entries.len()
    }

    /// Whether the catalog has no entries.
    pub fn is_empty(&self) -> (r: bool)
        ensures
            r == (self@.entries.len() == 0),
    {
        self.entries.len() == 0
    }

    /// How many records were skipped as unusable.
    pub fn skipped(&self) -> (r: usize)
        ensures
            r == self@.skipped,
    {
        self.skipped
    }

    /// How many records were dropped because an earlier collection already
    /// listed the same `(id, crc)`.
    pub fn duplicates(&self) -> (r: usize)
        ensures
            r == self@.duplicates,
    {
        self.duplicates
    }

    /// How many thumbnail requests failed to decode since construction.
    pub fn thumbnail_failures(&self) -> (r: usize)
        ensures
            r == self@.failures,
    {
        self.thumbnail_failures
    }

    /// How many props were actually decoded for thumbnails since
    /// construction; a cache hit does not count.
    pub fn props_decoded(&self) -> (r: usize)
        ensures
            r == self@.decodes,
    {
        self.decodes
    }

    /// The blob behind the entry with this exact `(id, crc)`, if any.
    pub fn blob_for(&self, id: u32, crc: u32) -> (r: Option<&[u8]>)
        ensures
            ({
                let key = PropKey { id: id as i32, crc };
                &&& self@.keys.contains(key) ==> (r matches Some(b) && b@ == self@.blobs[choose|
                    i: int,
                | 0 <= i < self@.keys.len() && self@.keys[i] == key])
                &&& !self@.keys.contains(key) ==> r is None
            }),
    {
        proof {
            use_type_invariant(self);
        }
        let key = PropKey::new(id as i32, crc);
        let code = code_of(key);
        match self.identities.get(&code) {
            Some(position) => {
                let position = *position;
                proof {
                    let i = choose|i: int|
                        0 <= i < self.sources@.len() && key_code(
                            rec_key(#[trigger] src_record(self.rosters@, self.sources@, i)),
                        ) == code;
                    lemma_code_injective(rec_key(self.record_at(i)), key);
                    assert(self@.keys[i] == key);
                    self.lemma_keys_unique();
                    let j = choose|j: int| 0 <= j < self@.keys.len() && self@.keys[j] == key;
                    assert(i == j);
                }
                let (roster_index, record_index) = self.sources[position];
                Some(self.rosters[roster_index].records()[record_index].blob.as_slice())
            },
            None => {
                proof {
                    if self@.keys.contains(key) {
                        let i = choose|i: int| 0 <= i < self@.keys.len() && self@.keys[i] == key;
                        assert(self.identities@.contains_key(key_code(rec_key(self.record_at(i)))));
                    }
                }
                None
            },
        }
    }

    /// Distinct entries carry distinct identities.
    proof fn lemma_keys_unique(&self)
        requires
            self.wf(),
        ensures
            forall|i: int, j: int|
                0 <= i < self@.keys.len() && 0 <= j < self@.keys.len() && self@.keys[i]
                    == self@.keys[j] ==> i == j,
    {
        assert forall|i: int, j: int|
            0 <= i < self@.keys.len() && 0 <= j < self@.keys.len() && self@.keys[i]
                == self@.keys[j] implies i == j by {
            assert(self.identities@[key_code(rec_key(src_record(self.rosters@, self.sources@, i)))]
                == i);
            assert(self.identities@[key_code(rec_key(src_record(self.rosters@, self.sources@, j)))]
                == j);
        }
    }

    /// A PNG thumbnail for the entry with this exact `(id, crc)`, or `None`
    /// when the catalog has no such entry or its blob cannot be decoded.
    ///
    /// Serves the in-memory LRU first when enabled, then `on_disk` (what the
    /// on-disk cache held for the identity, read by the caller), and only then
    /// decodes the one prop; a produced PNG is stored into the LRU. Never
    /// decodes the collection. A decode failure is counted, never fatal.
    pub fn thumbnail_png(&mut self, id: u32, crc: u32, on_disk: Option<Vec<u8>>) -> (r: Option<Vec<u8>>)
        ensures
            (final(self)@, opt_bytes(r)) == thumbnail_step(
                old(self)@,
                PropKey { id: id as i32, crc },
                opt_bytes(on_disk),
            ),
    {
        proof {
            use_type_invariant(&*self);
        }
        let key = PropKey::new(id as i32, crc);
        let ghost v0 = self@;
        let mut cache: Option<ThumbnailCache> = None;
        std::mem::swap(&mut cache, &mut self.thumbnail_cache);
        let mut hit: Option<Vec<u8>> = None;
        match &mut cache {
            Some(c) => {
                match c.get(key) {
                    Some(bytes) => {
                        hit = Some(crate::codec::thirtytwo::slice_to_vec(bytes));
                    },
                    None => {},
                }
            },
            None => {},
        }
        std::mem::swap(&mut cache, &mut self.thumbnail_cache);
        assert(self@ =~= after_lookup(v0, key));
        if hit.is_some() {
            return hit;
        }
        let png = match self.blob_for(id, crc) {
            None => {
                return None;
            },
            Some(blob) => match on_disk {
                Some(bytes) => bytes,
                None => match thumbnail_png(blob) {
                    None => {
                        self.thumbnail_failures = self.thumbnail_failures.wrapping_add(1);
                        return None;
                    },
                    Some(png) => {
                        self.decodes = self.decodes.wrapping_add(1);
                        png
                    },
                },
            },
        };
        let ghost v1 = self@;
        let ghost bytes = png@;
        let copy = crate::codec::thirtytwo::slice_to_vec(png.as_slice());
        let mut cache: Option<ThumbnailCache> = None;
        std::mem::swap(&mut cache, &mut self.thumbnail_cache);
        match &mut cache {
            Some(c) => {
                c.insert(key, copy);
            },
            None => {},
        }
        std::mem::swap(&mut cache, &mut self.thumbnail_cache);
        assert(self@ =~= remembered(v1, key, bytes));
        Some(png)
    }

    /// The number of thumbnails held in the in-memory LRU, or `None` when it
    /// is disabled.
    pub fn thumbnail_cache_len(&self) -> (r: Option<usize>)
        ensures
            match self@.cache {
                Some(c) => r == Some(c.entries.len() as usize),
                None => r is None,
            },
    {
        match &self.thumbnail_cache {
            Some(c) => Some(c.len()),
            None => None,
        }
    }

    /// Bytes of PNG data held in the in-memory LRU, or `None` when disabled.
    pub fn thumbnail_cache_bytes(&self) -> (r: Option<usize>)
        ensures
            match self@.cache {
                Some(c) => r == Some(c.bytes as usize),
                None => r is None,
            },
    {
        match &self.thumbnail_cache {
            Some(c) => Some(c.memory_bytes()),
            None => None,
        }
    }

    /// Thumbnails evicted from the in-memory LRU, or `None` when disabled.
    pub fn thumbnail_cache_evictions(&self) -> (r: Option<usize>)
        ensures
            match self@.cache {
                Some(c) => r == Some(c.evictions as usize),
                None => r is None,
            },
    {
        match &self.thumbnail_cache {
            Some(c) => Some(c.evictions()),
            None => None,
        }
    }

    /// Lookups served from the in-memory LRU, or `None` when disabled.
    pub fn thumbnail_cache_hits(&self) -> (r: Option<usize>)
        ensures
            match self@.cache {
                Some(c) => r == Some(c.hits as usize),
                None => r is None,
            },
    {
        match &self.thumbnail_cache {
            Some(c) => Some(c.hits()),
            None => None,
        }
    }

    /// Lookups that missed the in-memory LRU, or `None` when disabled.
    pub fn thumbnail_cache_misses(&self) -> (r: Option<usize>)
        ensures
            match self@.cache {
                Some(c) => r == Some(c.misses as usize),
                None => r is None,
            },
    {
        match &self.thumbnail_cache {
            Some(c) => Some(c.misses()),
            None => None,
        }
    }

    /// Drop every in-memory thumbnail, keeping its counters; a no-op when the
    /// in-memory cache is disabled.
    pub fn clear_thumbnail_cache(&mut self)
        ensures
            final(self)@ == (CatalogView {
                cache: match old(self)@.cache {
                    Some(c) => Some(CacheView { entries: Seq::empty(), bytes: 0, ..c }),
                    None => None,
                },
                ..old(self)@
            }),
    {
        proof {
            use_type_invariant(&*self);
        }
        let ghost v0 = self@;
        let mut cache: Option<ThumbnailCache> = None;
        std::mem::swap(&mut cache, &mut self.thumbnail_cache);
        match &mut cache {
            Some(c) => c.clear(),
            None => {},
        }
        std::mem::swap(&mut cache, &mut self.thumbnail_cache);
        assert(self@ =~= (CatalogView {
            cache: match v0.cache {
                Some(c) => Some(CacheView { entries: Seq::empty(), bytes: 0, ..c }),
                None => None,
            },
            ..v0
        }));
    }

    /// A window of entries, in collection then record order: `offset` past
    /// the end yields an empty slice and `limit` is clamped.
    pub fn page(&self, offset: usize, limit: usize) -> (r: &[CatalogEntry])
        ensures
            ({
                let total = self@.entries.len() as int;
                let start = catalog_paging::clamp_to(offset as int, total);
                r@ == self@.entries.subrange(start, catalog_paging::clamp_to(start + limit, total))
            }),
    {
        catalog_paging::page_slice(self.entries.as_slice(), offset, limit).0
    }

    /// A window of the entries that came from `collection`; the page's
    /// `total` is that collection's entry count.
    pub fn page_in_collection(&self, collection: &str, offset: usize, limit: usize) -> (r: (
        Vec<&CatalogEntry>,
        CatalogPage,
    ))
        ensures
            ({
                let matching = of_collection(self@.entries, collection@);
                let total = matching.len() as int;
                let start = catalog_paging::clamp_to(offset as int, total);
                let end = catalog_paging::clamp_to(start + limit, total);
                &&& targets(r.0@) == matching.subrange(start, end)
                &&& r.1 == (CatalogPage {
                    offset,
                    limit,
                    total: total as usize,
                    returned: (end - start) as usize,
                })
            }),
    {
        catalog_paging::page_in_collection(self.entries.as_slice(), collection, offset, limit)
    }

    /// How many entries came from `collection`.
    pub fn count_in_collection(&self, collection: &str) -> (r: usize)
        ensures
            r == of_collection(self@.entries, collection@).len(),
    {
        catalog_paging::count_in_collection(self.entries.as_slice(), collection)
    }

    /// Only the entries in one window, as the picker's JSON payload.
    pub fn catalog_page_json(&self, offset: usize, limit: usize) -> (r: String)
        ensures
            ({
                let total = self@.entries.len() as int;
                let start = catalog_paging::clamp_to(offset as int, total);
                r@ == spec_bag_json(
                    self@.entries.subrange(start, catalog_paging::clamp_to(start + limit, total)),
                )
            }),
    {
        bag_slice_json(self.page(offset, limit))
    }

    /// One window of one collection, as the picker's JSON payload.
    pub fn catalog_page_json_in_collection(&self, collection: &str, offset: usize, limit: usize) -> (r:
        String)
        ensures
            ({
                let matching = of_collection(self@.entries, collection@);
                let total = matching.len() as int;
                let start = catalog_paging::clamp_to(offset as int, total);
                r@ == spec_bag_json(
                    matching.subrange(start, catalog_paging::clamp_to(start + limit, total)),
                )
            }),
    {
        let (window, _) = self.page_in_collection(collection, offset, limit);
        bag_entries_json(window.as_slice())
    }

    /// The whole catalog as the picker's JSON payload.
    pub fn catalog_json(&self) -> (r: String)
        ensures
            r@ == spec_bag_json(self@.entries),
    {
        bag_slice_json(self.entries.as_slice())
    }

    /// Where the on-disk cache keeps this identity's thumbnail, when a cache
    /// directory is set.
    pub fn cache_path(&self, id: u32, crc: u32) -> (r: Option<String>)
        ensures
            match self@.cache_dir {
                Some(d) => r matches Some(p) && p@ == crate::bag_folder::join_text(
                    d,
                    cache_name(id, crc),
                ),
                None => r is None,
            },
    {
        match &self.cache_dir {
            Some(dir) => {
                let name = thumbnail_cache_name(id, crc);
                Some(crate::bag_folder::join(dir.as_str(), name.as_str()))
            },
            None => None,
        }
    }
}


proof fn lemma_step_distinct(
    st: Tally,
    collection: Seq<char>,
    favs: Seq<PropKey>,
    roster: int,
    index: int,
    r: RecordView,
)
    requires
        crate::favorites_trash::distinct_keys(picked_keys(st.picked)),
    ensures
        crate::favorites_trash::distinct_keys(
            picked_keys(step_record(st, collection, favs, roster, index, r).picked),
        ),
{
    let next = step_record(st, collection, favs, roster, index, r);
    if r.header is Some && !picked_keys(st.picked).contains(rec_key(r)) {
        let before = picked_keys(st.picked);
        assert(picked_keys(next.picked) =~= before.push(rec_key(r)));
        assert forall|i: int, j: int|
            0 <= i < j < before.len() + 1 implies #[trigger] picked_keys(next.picked)[i]
            != #[trigger] picked_keys(next.picked)[j] by {
            if j == before.len() {
                assert(before[i] == picked_keys(next.picked)[i]);
            }
        }
    }
}

proof fn lemma_fold_run_distinct(
    st: Tally,
    collection: Seq<char>,
    favs: Seq<PropKey>,
    roster: int,
    records: Seq<RecordView>,
    start: int,
    end: int,
)
    requires
        crate::favorites_trash::distinct_keys(picked_keys(st.picked)),
    ensures
        crate::favorites_trash::distinct_keys(
            picked_keys(fold_run(st, collection, favs, roster, records, start, end).picked),
        ),
    decreases end - start,
{
    if start < end {
        lemma_fold_run_distinct(st, collection, favs, roster, records, start, end - 1);
        lemma_step_distinct(
            fold_run(st, collection, favs, roster, records, start, end - 1),
            collection,
            favs,
            roster,
            end - 1,
            records[end - 1],
        );
    }
}

proof fn lemma_fold_types_distinct(
    st: Tally,
    collection: Seq<char>,
    favs: Seq<PropKey>,
    roster: int,
    types: Seq<AssetTypeRec>,
    records: Seq<RecordView>,
    k: int,
)
    requires
        crate::favorites_trash::distinct_keys(picked_keys(st.picked)),
    ensures
        crate::favorites_trash::distinct_keys(
            picked_keys(fold_types(st, collection, favs, roster, types, records, k).picked),
        ),
    decreases k,
{
    if k > 0 {
        lemma_fold_types_distinct(st, collection, favs, roster, types, records, k - 1);
        let prev = fold_types(st, collection, favs, roster, types, records, k - 1);
        let b = type_bounds(types[k - 1], records.len() as int);
        lemma_fold_run_distinct(prev, collection, favs, roster, records, b.0, b.1);
    }
}

proof fn lemma_fold_collections_distinct(cols: Seq<(Seq<char>, RosterView)>, k: int)
    ensures
        crate::favorites_trash::distinct_keys(picked_keys(fold_collections(cols, k).picked)),
    decreases k,
{
    if k > 0 {
        lemma_fold_collections_distinct(cols, k - 1);
        let prev = fold_collections(cols, k - 1);
        let v = cols[k - 1].1;
        let st = Tally { skipped: prev.skipped + v.dropped, ..prev };
        assert(picked_keys(st.picked) == picked_keys(prev.picked));
        lemma_fold_types_distinct(
            st,
            cols[k - 1].0,
            favorite_list(v),
            k - 1,
            v.types,
            v.records,
            v.types.len() as int,
        );
    } else {
        assert(picked_keys(fold_collections(cols, k).picked).len() == 0);
    }
}

/// A catalog aggregated from collections lists each `(id, crc)` at most
/// once, and accounts for every record of their `Prop` runs and every
/// record their parse dropped: each is an entry, a skip or a duplicate.
pub proof fn lemma_catalog_accounts(v: CatalogView, cols: Seq<(Seq<char>, RosterView)>)
    requires
        catalog_of(v, cols),
    ensures
        forall|i: int, j: int| 0 <= i < j < v.entries.len() ==> v.keys[i] != v.keys[j],
        v.entries.len() + v.skipped + v.duplicates == cols_work(cols, cols.len() as int),
{
    let t = aggregated(cols);
    lemma_fold_collections_distinct(cols, cols.len() as int);
    lemma_fold_collections_total(cols, cols.len() as int);
    assert forall|i: int, j: int| 0 <= i < j < v.entries.len() implies v.keys[i] != v.keys[j] by {
        assert(picked_entry(t.picked[i], v.entries[i]));
        assert(picked_entry(t.picked[j], v.entries[j]));
        assert(picked_keys(t.picked)[i] != picked_keys(t.picked)[j]);
    }
}

/// Whether `key` is the `s`-th whole 8-byte little-endian `(id, crc)` spec
/// of a record in the declared range of a `Fave` type.
pub open spec fn fave_spec_in_roster(v: RosterView, key: PropKey, k: int, j: int, s: int) -> bool {
    let b = type_bounds(v.types[k], v.records.len() as int);
    &&& 0 <= k < v.types.len()
    &&& kind_of(v.types[k]) == AssetType::Fave
    &&& b.0 <= j < b.1
    &&& 0 <= j < v.records.len()
    &&& 0 <= s
    &&& 8 * s + 8 <= v.records[j].blob.len()
    &&& key.id == le_i32(v.records[j].blob, 8 * s)
    &&& key.crc == le_u32(v.records[j].blob, 8 * s + 4)
}

proof fn lemma_run_specs_has(records: Seq<RecordView>, start: int, end: int, j: int, s: int)
    requires
        start <= j < end,
        0 <= j < records.len(),
        0 <= s,
        8 * s + 8 <= records[j].blob.len(),
    ensures
        run_specs(records, start, end).contains(fave_spec_at(records[j].blob, s)),
    decreases end - start,
{
    let a = run_specs(records, start, end - 1);
    let bs = blob_specs(records[end - 1].blob);
    assert(run_specs(records, start, end) == a + bs);
    if j == end - 1 {
        assert(s < records[j].blob.len() / 8);
        assert((a + bs)[a.len() + s] == bs[s]);
    } else {
        lemma_run_specs_has(records, start, end - 1, j, s);
        let m = choose|m: int| 0 <= m < a.len() && a[m] == fave_spec_at(records[j].blob, s);
        assert((a + bs)[m] == a[m]);
    }
}

proof fn lemma_run_specs_from(records: Seq<RecordView>, start: int, end: int, key: PropKey)
    requires
        0 <= start,
        end <= records.len(),
        run_specs(records, start, end).contains(key),
    ensures
        exists|j: int, s: int|
            start <= j < end && 0 <= s && 8 * s + 8 <= records[j].blob.len() && key
                == #[trigger] fave_spec_at(records[j].blob, s),
    decreases end - start,
{
    let a = run_specs(records, start, end - 1);
    let bs = blob_specs(records[end - 1].blob);
    assert(run_specs(records, start, end) == a + bs);
    let m = choose|m: int| 0 <= m < (a + bs).len() && (a + bs)[m] == key;
    if m < a.len() {
        assert(a[m] == key);
        lemma_run_specs_from(records, start, end - 1, key);
    } else {
        let s = m - a.len();
        assert(bs[s] == key);
        assert(8 * s + 8 <= records[end - 1].blob.len());
        assert(key == fave_spec_at(records[end - 1].blob, s));
    }
}

proof fn lemma_fave_specs_has(v: RosterView, big: int, key: PropKey, k: int, j: int, s: int)
    requires
        fave_spec_in_roster(v, key, k, j, s),
        k < big <= v.types.len(),
    ensures
        fave_specs(v.types, v.records, big).contains(key),
    decreases big,
{
    let n = v.records.len() as int;
    let prev = fave_specs(v.types, v.records, big - 1);
    let b = type_bounds(v.types[big - 1], n);
    let tail = if kind_of(v.types[big - 1]) == AssetType::Fave {
        run_specs(v.records, b.0, b.1)
    } else {
        Seq::empty()
    };
    assert(fave_specs(v.types, v.records, big) == prev + tail);
    assert(key == fave_spec_at(v.records[j].blob, s));
    if k == big - 1 {
        lemma_run_specs_has(v.records, b.0, b.1, j, s);
        let m = choose|m: int| 0 <= m < tail.len() && tail[m] == key;
        assert((prev + tail)[prev.len() + m] == tail[m]);
    } else {
        lemma_fave_specs_has(v, big - 1, key, k, j, s);
        let m = choose|m: int| 0 <= m < prev.len() && prev[m] == key;
        assert((prev + tail)[m] == prev[m]);
    }
}

proof fn lemma_fave_specs_from(v: RosterView, big: int, key: PropKey)
    requires
        0 <= big <= v.types.len(),
        fave_specs(v.types, v.records, big).contains(key),
    ensures
        exists|k: int, j: int, s: int| #[trigger] fave_spec_in_roster(v, key, k, j, s),
    decreases big,
{
    let n = v.records.len() as int;
    if big > 0 {
        let prev = fave_specs(v.types, v.records, big - 1);
        let b = type_bounds(v.types[big - 1], n);
        let tail = if kind_of(v.types[big - 1]) == AssetType::Fave {
            run_specs(v.records, b.0, b.1)
        } else {
            Seq::empty()
        };
        assert(fave_specs(v.types, v.records, big) == prev + tail);
        let m = choose|m: int| 0 <= m < (prev + tail).len() && (prev + tail)[m] == key;
        if m < prev.len() {
            assert(prev[m] == key);
            lemma_fave_specs_from(v, big - 1, key);
        } else {
            assert(tail[m - prev.len()] == key);
            assert(tail.contains(key));
            lemma_run_specs_from(v.records, b.0, b.1, key);
            let (j, s) = choose|j: int, s: int|
                b.0 <= j < b.1 && 0 <= s && 8 * s + 8 <= v.records[j].blob.len() && key
                    == #[trigger] fave_spec_at(v.records[j].blob, s);
            assert(fave_spec_in_roster(v, key, big - 1, j, s));
        }
    } else {
        assert(fave_specs(v.types, v.records, big).len() == 0);
    }
}

/// A roster's favourite keys are exactly the whole 8-byte little-endian
/// `(id, crc)` specs of the records in the declared ranges of its `Fave`
/// types: every such spec is a favourite, and every favourite is one.
pub proof fn lemma_favorites_are_fave_specs(v: RosterView, key: PropKey)
    ensures
        favorite_list(v).contains(key) <==> exists|k: int, j: int, s: int|
            #[trigger] fave_spec_in_roster(v, key, k, j, s),
{
    if favorite_list(v).contains(key) {
        lemma_fave_specs_from(v, v.types.len() as int, key);
    }
    if exists|k: int, j: int, s: int| #[trigger] fave_spec_in_roster(v, key, k, j, s) {
        let (k, j, s) = choose|k: int, j: int, s: int| #[trigger] fave_spec_in_roster(v, key, k, j, s);
        lemma_fave_specs_has(v, v.types.len() as int, key, k, j, s);
    }
}

/// Every catalogued record's favourite flag says whether its identity is
/// among the favourites of the collection it came from.
pub open spec fn flags_follow_favorites(t: Tally, cols: Seq<(Seq<char>, RosterView)>) -> bool {
    forall|i: int|
        0 <= i < t.picked.len() ==> {
            let p = #[trigger] t.picked[i];
            0 <= p.roster < cols.len() && p.favorite == favorite_list(cols[p.roster].1).contains(
                rec_key(p.record),
            )
        }
}

proof fn lemma_fold_run_flags(
    st: Tally,
    cols: Seq<(Seq<char>, RosterView)>,
    r: int,
    collection: Seq<char>,
    records: Seq<RecordView>,
    start: int,
    end: int,
)
    requires
        0 <= r < cols.len(),
        flags_follow_favorites(st, cols),
    ensures
        flags_follow_favorites(
            fold_run(st, collection, favorite_list(cols[r].1), r, records, start, end),
            cols,
        ),
    decreases end - start,
{
    if start < end {
        lemma_fold_run_flags(st, cols, r, collection, records, start, end - 1);
    }
}

proof fn lemma_fold_types_flags(
    st: Tally,
    cols: Seq<(Seq<char>, RosterView)>,
    r: int,
    collection: Seq<char>,
    types: Seq<AssetTypeRec>,
    records: Seq<RecordView>,
    j: int,
)
    requires
        0 <= r < cols.len(),
        flags_follow_favorites(st, cols),
    ensures
        flags_follow_favorites(
            fold_types(st, collection, favorite_list(cols[r].1), r, types, records, j),
            cols,
        ),
    decreases j,
{
    if j > 0 {
        lemma_fold_types_flags(st, cols, r, collection, types, records, j - 1);
        let prev = fold_types(st, collection, favorite_list(cols[r].1), r, types, records, j - 1);
        let b = type_bounds(types[j - 1], records.len() as int);
        lemma_fold_run_flags(prev, cols, r, collection, records, b.0, b.1);
    }
}

proof fn lemma_fold_collections_flags(cols: Seq<(Seq<char>, RosterView)>, k: int)
    requires
        0 <= k <= cols.len(),
    ensures
        flags_follow_favorites(fold_collections(cols, k), cols),
    decreases k,
{
    if k > 0 {
        lemma_fold_collections_flags(cols, k - 1);
        let prev = fold_collections(cols, k - 1);
        let v = cols[k - 1].1;
        let st = Tally { skipped: prev.skipped + v.dropped, ..prev };
        assert(flags_follow_favorites(st, cols));
        lemma_fold_types_flags(st, cols, k - 1, cols[k - 1].0, v.types, v.records, v.types.len() as int);
    }
}

/// A catalog entry is marked favourite exactly when its `(id, crc)` is among
/// the favourite keys of the collection whose record it shows.
pub proof fn lemma_catalog_favorite_flag(v: CatalogView, cols: Seq<(Seq<char>, RosterView)>, i: int)
    requires
        catalog_of(v, cols),
        0 <= i < v.entries.len(),
    ensures
        exists|c: int, j: int|
            0 <= c < cols.len() && 0 <= j < cols[c].1.records.len() && rec_key(
                #[trigger] cols[c].1.records[j],
            ) == v.keys[i] && cols[c].1.records[j].blob == v.blobs[i] && v.entries[i].favorite
                == favorite_list(cols[c].1).contains(v.keys[i]),
{
    let t = aggregated(cols);
    lemma_fold_collections_flags(cols, cols.len() as int);
    lemma_fold_collections_from(cols, cols.len() as int);
    let p = t.picked[i];
    assert(picked_entry(t.picked[i], v.entries[i]));
    assert(0 <= p.roster < cols.len());
    assert(0 <= p.index < cols[p.roster].1.records.len());
    assert(p.record == cols[p.roster].1.records[p.index]);
    assert(rec_key(cols[p.roster].1.records[p.index]) == v.keys[i]);
}

} // verus!
