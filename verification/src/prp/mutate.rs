//! Roster mutation: `canonicalise`, `add_prop`, `add_fave` and `remove_prop`.
//!
//! These operations change a roster, so unlike the literal writer they move
//! bytes: they re-sort, repack the data region, rebuild the names blob and
//! recompute every record CRC.
//!
//! * A record goes in its own type's run, so a `Prop` insert never displaces a
//!   `Fave` entry (or the other way round).
//! * Variant chains stay adjacent: an insert lands right after the run of its
//!   id, and the sort is stable.
//! * Nothing is dropped or deduplicated.
//! * Canonical form is what the server's signed binary search requires: each
//!   type's records ascending by signed `id`, blobs packed contiguously from
//!   offset 0, and CRCs recomputed.

use vstd::prelude::*;
use vstd::multiset::Multiset;

use crate::codec::thirtytwo::slice_to_vec;
use crate::crc::{asset_crc, spec_asset_crc};
use crate::text::latin1_bytes;

use super::model::{
    spec_asset_type_from_raw, spec_asset_type_to_raw, AssetFileHeader, AssetMapHeader, AssetRec,
    AssetType, AssetTypeRec, FILE_HEADER_LEN, MAP_HEADER_LEN,
};
use super::read::{names_view, records_view};
use super::record::{
    spec_blob_encoding, spec_blob_header, PropHeader, PropKey, PropRecord, RecordView,
    MAX_NAME_LEN, PROP_HEADER_LEN,
};
use super::write::{layout_fits, name_entry, names_blob, put_bytes};
use super::{Roster, RosterView};

verus! {

/// A stored count read as non-negative.
pub open spec fn nonneg(x: i32) -> int {
    if x < 0 {
        0
    } else {
        x as int
    }
}

/// Saturating `i32` addition.
pub open spec fn sat_add_i32(a: int, b: int) -> int {
    if a + b > i32::MAX {
        i32::MAX as int
    } else if a + b < i32::MIN {
        i32::MIN as int
    } else {
        a + b
    }
}

/// Where type `i`'s run begins once the table is reindexed: the saturating
/// running sum of the earlier types' counts.
pub open spec fn running_first(types: Seq<AssetTypeRec>, i: int) -> int
    decreases i,
{
    if i <= 0 {
        0
    } else {
        sat_add_i32(running_first(types, i - 1), nonneg(types[i - 1].nbr_assets))
    }
}

/// The type table with every `first_asset` recomputed from the counts.
pub open spec fn reindexed(types: Seq<AssetTypeRec>) -> Seq<AssetTypeRec> {
    Seq::new(
        types.len(),
        |i: int|
            AssetTypeRec {
                asset_type: types[i].asset_type,
                nbr_assets: types[i].nbr_assets,
                first_asset: running_first(types, i) as i32,
            },
    )
}

/// The offset under which a name is already stored, searching from the front.
pub open spec fn offset_of_name(names: Seq<(u32, Seq<char>)>, name: Seq<char>) -> Option<u32>
    decreases names.len(),
{
    if names.len() == 0 {
        None
    } else if names[0].1 == name {
        Some(names[0].0)
    } else {
        offset_of_name(names.drop_first(), name)
    }
}

/// The rebuilt names list after the first `k` records: each distinct name
/// once, in first-use order, keyed by the blob offset of its entry.
pub open spec fn names_after(records: Seq<RecordView>, k: int) -> Seq<(u32, Seq<char>)>
    decreases k,
{
    if k <= 0 {
        Seq::empty()
    } else {
        let names = names_after(records, k - 1);
        match records[k - 1].name {
            None => names,
            Some(n) => if offset_of_name(names, n) is Some {
                names
            } else {
                names.push((names_blob(names).len() as u32, n))
            },
        }
    }
}

/// The `name_offset` record `k` receives: `-1` when unnamed.
pub open spec fn rebuilt_name_offset(records: Seq<RecordView>, k: int) -> i32 {
    match records[k].name {
        None => -1i32,
        Some(n) => {
            let names = names_after(records, k);
            match offset_of_name(names, n) {
                Some(o) => o as i32,
                None => (names_blob(names).len() as u32) as i32,
            }
        },
    }
}

/// The first `k` blobs packed back to back.
pub open spec fn packed_data(records: Seq<RecordView>, k: int) -> Seq<u8>
    decreases k,
{
    if k <= 0 {
        Seq::empty()
    } else {
        packed_data(records, k - 1) + records[k - 1].blob
    }
}

/// The stored CRC after recomputation: the payload CRC when the blob has a
/// header, otherwise unchanged.
pub open spec fn refreshed_crc(blob: Seq<u8>, old_crc: u32) -> u32 {
    if blob.len() >= PROP_HEADER_LEN {
        spec_asset_crc(blob.subrange(PROP_HEADER_LEN as int, blob.len() as int))
    } else {
        old_crc
    }
}

/// Record `k` after the roster is repacked.
pub open spec fn finished_record(records: Seq<RecordView>, k: int) -> RecordView {
    let r = records[k];
    RecordView {
        rec: AssetRec {
            id: r.rec.id,
            r_handle: r.rec.r_handle,
            data_offset: packed_data(records, k).len() as u32,
            data_size: r.blob.len() as u32,
            last_use_time: r.rec.last_use_time,
            name_offset: rebuilt_name_offset(records, k),
            flags: r.rec.flags,
            crc: refreshed_crc(r.blob, r.rec.crc),
        },
        header: spec_blob_header(r.blob),
        encoding: spec_blob_encoding(r.blob),
        blob: r.blob,
        name: r.name,
    }
}

/// The roster rebuilt around these records and types: reindexed types,
/// rebuilt names, packed data, recomputed CRCs and fresh headers.
pub open spec fn spec_finish(
    records: Seq<RecordView>,
    types: Seq<AssetTypeRec>,
    dropped: nat,
) -> RosterView {
    let n = records.len() as int;
    let names = names_after(records, n);
    let data = packed_data(records, n);
    let len_names = names_blob(names).len() as int;
    let recs_offset = MAP_HEADER_LEN + 12 * types.len();
    let names_offset = recs_offset + 32 * n;
    RosterView {
        file: AssetFileHeader {
            data_offset: FILE_HEADER_LEN as u32,
            data_size: data.len() as u32,
            asset_map_offset: (FILE_HEADER_LEN + data.len()) as u32,
            asset_map_size: (names_offset + len_names) as u32,
        },
        map: AssetMapHeader {
            nbr_types: types.len() as i32,
            nbr_assets: n as i32,
            len_names: len_names as i32,
            types_offset: MAP_HEADER_LEN as u32,
            recs_offset: recs_offset as u32,
            names_offset: names_offset as u32,
        },
        types: reindexed(types),
        records: Seq::new(n as nat, |k: int| finished_record(records, k)),
        names,
        data,
        dropped,
    }
}

/// `got` is `expected`, except that the two headers are only pinned when the
/// layout can be addressed in memory.
pub open spec fn finished_as(got: RosterView, expected: RosterView) -> bool {
    &&& got.types == expected.types
    &&& got.records == expected.records
    &&& got.names == expected.names
    &&& got.data == expected.data
    &&& got.dropped == expected.dropped
    &&& layout_fits(expected) ==> got == expected
}

/// Where a record with this id goes in a sorted run: after every element
/// whose id is not greater.
pub open spec fn insert_pos(sorted: Seq<RecordView>, id: i32) -> int
    decreases sorted.len(),
{
    if sorted.len() == 0 {
        0
    } else if sorted.last().rec.id <= id {
        sorted.len() as int
    } else {
        insert_pos(sorted.drop_last(), id)
    }
}

/// The records sorted by signed id, stably.
pub open spec fn sort_by_id(s: Seq<RecordView>) -> Seq<RecordView>
    decreases s.len(),
{
    if s.len() == 0 {
        Seq::empty()
    } else {
        let sorted = sort_by_id(s.drop_last());
        sorted.insert(insert_pos(sorted, s.last().rec.id), s.last())
    }
}

/// A type's declared run, `[start, end)`, clipped at the end of the records.
pub open spec fn type_bounds(t: AssetTypeRec, n: int) -> (int, int) {
    let start = nonneg(t.first_asset);
    let end = start + nonneg(t.nbr_assets);
    (start, if end < n {
        end
    } else {
        n
    })
}

/// The records among the first `m` whose owning type (the first type whose
/// declared run holds them) is `owner`, in record order; `None` picks the
/// records no type holds.
pub open spec fn picked(
    records: Seq<RecordView>,
    types: Seq<AssetTypeRec>,
    owner: Option<int>,
    m: int,
) -> Seq<RecordView>
    decreases m,
{
    if m <= 0 {
        Seq::empty()
    } else {
        let before = picked(records, types, owner, m - 1);
        if type_holding(types, m - 1, 0) == owner {
            before.push(records[m - 1])
        } else {
            before
        }
    }
}

/// The records of the first `k` types, each type's records sorted by signed
/// id, concatenated.
pub open spec fn grouped(records: Seq<RecordView>, types: Seq<AssetTypeRec>, k: int) -> Seq<
    RecordView,
>
    decreases k,
{
    if k <= 0 {
        Seq::empty()
    } else {
        grouped(records, types, k - 1) + sort_by_id(
            picked(records, types, Some(k - 1), records.len() as int),
        )
    }
}

/// The canonical record order: each type's records sorted, then the records
/// no declared run holds, in order. Every record appears exactly once.
pub open spec fn canonical_order(records: Seq<RecordView>, types: Seq<AssetTypeRec>) -> Seq<
    RecordView,
> {
    grouped(records, types, types.len() as int) + picked(
        records,
        types,
        None,
        records.len() as int,
    )
}

/// What [`Roster::canonicalise`] makes of a roster.
pub open spec fn spec_canonicalise(v: RosterView) -> RosterView {
    spec_finish(canonical_order(v.records, v.types), v.types, v.dropped)
}

/// The kind of a stored type record.
pub open spec fn kind_of(t: AssetTypeRec) -> AssetType {
    spec_asset_type_from_raw(t.asset_type as u32)
}

/// The first type of this kind at or after `i`.
pub open spec fn first_of_kind(types: Seq<AssetTypeRec>, kind: AssetType, i: int) -> Option<int>
    decreases types.len() - i,
{
    if i < 0 || i >= types.len() {
        None
    } else if kind_of(types[i]) == kind {
        Some(i)
    } else {
        first_of_kind(types, kind, i + 1)
    }
}

/// The type table with this kind present, and the index of that kind's record.
pub open spec fn with_kind(types: Seq<AssetTypeRec>, kind: AssetType, n: int) -> (Seq<
    AssetTypeRec,
>, int) {
    match first_of_kind(types, kind, 0) {
        Some(i) => (types, i),
        None => (
            types.push(
                AssetTypeRec {
                    asset_type: spec_asset_type_to_raw(kind) as i32,
                    nbr_assets: 0,
                    first_asset: n as i32,
                },
            ),
            types.len() as int,
        ),
    }
}

/// The first index in `[j, end)` whose id differs from `id`, else `end`.
pub open spec fn run_end(records: Seq<RecordView>, j: int, end: int, id: i32) -> int
    decreases end - j,
{
    if j >= end {
        end
    } else if records[j].rec.id != id {
        j
    } else {
        run_end(records, j + 1, end, id)
    }
}

/// The first index in `[j, end)` whose id is `id`, else `end`.
pub open spec fn first_with_id(records: Seq<RecordView>, j: int, end: int, id: i32) -> int
    decreases end - j,
{
    if j >= end {
        end
    } else if records[j].rec.id == id {
        j
    } else {
        first_with_id(records, j + 1, end, id)
    }
}

/// The first index in `[j, end)` whose id is greater than `id`, else `end`.
pub open spec fn first_greater(records: Seq<RecordView>, j: int, end: int, id: i32) -> int
    decreases end - j,
{
    if j >= end {
        end
    } else if records[j].rec.id > id {
        j
    } else {
        first_greater(records, j + 1, end, id)
    }
}

/// Where an insert into `[start, end)` lands: right after the first run of
/// records sharing its id when there is one, else before the first greater
/// id, else at the end of the run.
pub open spec fn insert_point(records: Seq<RecordView>, start: int, end: int, id: i32) -> int {
    let f = first_with_id(records, start, end, id);
    if f < end {
        run_end(records, f, end, id)
    } else {
        first_greater(records, start, end, id)
    }
}

/// The start and end of a type's run as the insert clamps them.
pub open spec fn insert_bounds(t: AssetTypeRec, n: int) -> (int, int) {
    let first = nonneg(t.first_asset);
    let start = if first < n {
        first
    } else {
        n
    };
    let end = start + nonneg(t.nbr_assets);
    (start, if end < n {
        end
    } else {
        n
    })
}

/// What inserting `r` into `kind`'s run makes of a roster.
pub open spec fn spec_add_typed(v: RosterView, r: RecordView, kind: AssetType) -> RosterView {
    let n = v.records.len() as int;
    let (types, ti) = with_kind(v.types, kind, n);
    let (start, end) = insert_bounds(types[ti], n);
    let at = insert_point(v.records, start, end, r.rec.id);
    let t = types[ti];
    let bumped = types.update(
        ti,
        AssetTypeRec {
            asset_type: t.asset_type,
            nbr_assets: sat_add_i32(t.nbr_assets as int, 1) as i32,
            first_asset: t.first_asset,
        },
    );
    spec_finish(v.records.insert(at, r), bumped, v.dropped)
}

/// The first record index with this exact identity.
pub open spec fn key_index(records: Seq<RecordView>, key: PropKey, i: int) -> Option<int>
    decreases records.len() - i,
{
    if i < 0 || i >= records.len() {
        None
    } else if records[i].rec.id == key.id && records[i].rec.crc == key.crc {
        Some(i)
    } else {
        key_index(records, key, i + 1)
    }
}

/// The first type whose declared run holds record index `index`.
pub open spec fn type_holding(types: Seq<AssetTypeRec>, index: int, i: int) -> Option<int>
    decreases types.len() - i,
{
    if i < 0 || i >= types.len() {
        None
    } else if nonneg(types[i].first_asset) <= index < nonneg(types[i].first_asset) + nonneg(
        types[i].nbr_assets,
    ) {
        Some(i)
    } else {
        type_holding(types, index, i + 1)
    }
}

/// What removing record `index` makes of a roster.
pub open spec fn spec_remove_at(v: RosterView, index: int) -> RosterView {
    let types = match type_holding(v.types, index, 0) {
        None => v.types,
        Some(i) => v.types.update(
            i,
            AssetTypeRec {
                asset_type: v.types[i].asset_type,
                nbr_assets: sat_add_i32(v.types[i].nbr_assets as int, -1) as i32,
                first_asset: v.types[i].first_asset,
            },
        ),
    };
    spec_finish(v.records.remove(index), types, v.dropped)
}

/// A copy of a record.
pub fn copy_record(r: &PropRecord) -> (c: PropRecord)
    ensures
        c@ == r@,
{
    let name = match &r.name {
        Some(s) => Some(s.clone()),
        None => None,
    };
    PropRecord {
        rec: r.rec,
        header: r.header,
        encoding: r.encoding,
        blob: slice_to_vec(r.blob.as_slice()),
        name,
    }
}

/// The offset under which `name` is stored in `names`, if it is.
fn find_offset(names: &Vec<(u32, String)>, name: &String) -> (r: Option<u32>)
    ensures
        r == offset_of_name(names_view(names@), name@),
{
    let ghost nv = names_view(names@);
    assert(nv.subrange(0, nv.len() as int) =~= nv);
    let mut i: usize = 0;
    while i < names.len()
        invariant
            i <= names@.len(),
            nv == names_view(names@),
            offset_of_name(nv, name@) == offset_of_name(nv.subrange(i as int, nv.len() as int), name@),
        decreases names@.len() - i,
    {
        let ghost rest = nv.subrange(i as int, nv.len() as int);
        assert(rest.drop_first() =~= nv.subrange(i as int + 1, nv.len() as int));
        assert(rest[0] == nv[i as int]);
        if names[i].1 == *name {
            return Some(names[i].0);
        }
        i = i + 1;
    }
    None
}

/// Append one names-blob entry for `name`.
fn push_name_entry(blob: &mut Vec<u8>, name: &String)
    ensures
        final(blob)@ == old(blob)@ + name_entry(name@),
{
    let bytes = latin1_bytes(name.as_str());
    let k = if bytes.len() < MAX_NAME_LEN {
        bytes.len()
    } else {
        MAX_NAME_LEN
    };
    blob.push(k as u8);
    put_bytes(blob, &bytes.as_slice()[0..k]);
    assert(blob@ =~= old(blob)@ + name_entry(name@));
}

/// The recomputed type table.
fn reindex_types(types: &Vec<AssetTypeRec>) -> (r: Vec<AssetTypeRec>)
    ensures
        r@ == reindexed(types@),
{
    let mut out: Vec<AssetTypeRec> = Vec::new();
    let mut running: i32 = 0;
    let mut i: usize = 0;
    while i < types.len()
        invariant
            i <= types@.len(),
            running as int == running_first(types@, i as int),
            out@.len() == i,
            forall|j: int| 0 <= j < i ==> out@[j] == reindexed(types@)[j],
        decreases types@.len() - i,
    {
        let t = types[i];
        out.push(AssetTypeRec { asset_type: t.asset_type, nbr_assets: t.nbr_assets, first_asset: running });
        let count: i32 = if t.nbr_assets < 0 {
            0
        } else {
            t.nbr_assets
        };
        running = if running > i32::MAX - count {
            i32::MAX
        } else {
            running + count
        };
        i = i + 1;
    }
    assert(out@ =~= reindexed(types@));
    out
}

/// The records rebuilt in order, with the names list, the names blob and the
/// packed data region they produce.
fn rebuild_records(records: &Vec<PropRecord>) -> (r: (
    Vec<PropRecord>,
    Vec<(u32, String)>,
    Vec<u8>,
    Vec<u8>,
))
    ensures
        records_view(r.0@) == Seq::new(
            records@.len(),
            |k: int| finished_record(records_view(records@), k),
        ),
        names_view(r.1@) == names_after(records_view(records@), records@.len() as int),
        r.2@ == names_blob(names_after(records_view(records@), records@.len() as int)),
        r.3@ == packed_data(records_view(records@), records@.len() as int),
{
    let ghost rv = records_view(records@);
    let mut out: Vec<PropRecord> = Vec::new();
    let mut names: Vec<(u32, String)> = Vec::new();
    let mut blob: Vec<u8> = Vec::new();
    let mut data: Vec<u8> = Vec::new();
    let mut k: usize = 0;
    while k < records.len()
        invariant
            k <= records@.len(),
            rv == records_view(records@),
            out@.len() == k,
            forall|j: int| 0 <= j < k ==> out@[j]@ == finished_record(rv, j),
            names_view(names@) == names_after(rv, k as int),
            blob@ == names_blob(names_after(rv, k as int)),
            data@ == packed_data(rv, k as int),
        decreases records@.len() - k,
    {
        let r = &records[k];
        assert(r@ == rv[k as int]);
        let name_offset: i32 = match &r.name {
            None => -1,
            Some(name) => match find_offset(&names, name) {
                Some(o) => o as i32,
                None => {
                    let off = blob.len() as u32;
                    let ghost before = names_view(names@);
                    push_name_entry(&mut blob, name);
                    names.push((off, name.clone()));
                    proof {
                        assert(names_view(names@) =~= before.push((off, name@)));
                        assert(before.push((off, name@)).drop_last() =~= before);
                    }
                    off as i32
                },
            },
        };
        let data_offset = data.len() as u32;
        put_bytes(&mut data, r.blob.as_slice());
        let bl = r.blob.len();
        let header = match PropHeader::parse(r.blob.as_slice()) {
            Ok(h) => Some(h),
            Err(_) => None,
        };
        let encoding = match header {
            Some(h) => Some(h.encoding()),
            None => None,
        };
        let crc = if bl >= PROP_HEADER_LEN {
            asset_crc(&r.blob.as_slice()[PROP_HEADER_LEN..bl])
        } else {
            r.rec.crc
        };
        let name = match &r.name {
            Some(s) => Some(s.clone()),
            None => None,
        };
        let rec = AssetRec {
            id: r.rec.id,
            r_handle: r.rec.r_handle,
            data_offset,
            data_size: bl as u32,
            last_use_time: r.rec.last_use_time,
            name_offset,
            flags: r.rec.flags,
            crc,
        };
        out.push(PropRecord { rec, header, encoding, blob: slice_to_vec(r.blob.as_slice()), name });
        proof {
            assert(out@[k as int]@ == finished_record(rv, k as int));
        }
        k = k + 1;
    }
    assert(records_view(out@) =~= Seq::new(records@.len(), |j: int| finished_record(rv, j)));
    (out, names, blob, data)
}

/// Recompute the derived state after the records or types changed: type
/// ranges, names, packed data, CRCs and headers.
fn finish(roster: &mut Roster)
    ensures
        finished_as(
            final(roster)@,
            spec_finish(old(roster)@.records, old(roster)@.types, old(roster)@.dropped),
        ),
{
    let ghost expected = spec_finish(old(roster)@.records, old(roster)@.types, old(roster)@.dropped);
    let types = reindex_types(&roster.types);
    let (records, names, blob, data) = rebuild_records(&roster.records);
    let nbr_types = types.len();
    let nbr_assets = records.len();
    let len_names = blob.len();
    let data_size = data.len();
    let recs_offset = nbr_types.wrapping_mul(12).wrapping_add(MAP_HEADER_LEN);
    let names_offset = nbr_assets.wrapping_mul(32).wrapping_add(recs_offset);
    let map_size = names_offset.wrapping_add(len_names);
    let map_offset = data_size.wrapping_add(FILE_HEADER_LEN);
    roster.map = AssetMapHeader {
        nbr_types: nbr_types as i32,
        nbr_assets: nbr_assets as i32,
        len_names: len_names as i32,
        types_offset: MAP_HEADER_LEN as u32,
        recs_offset: recs_offset as u32,
        names_offset: names_offset as u32,
    };
    roster.file = AssetFileHeader {
        data_offset: FILE_HEADER_LEN as u32,
        data_size: data_size as u32,
        asset_map_offset: map_offset as u32,
        asset_map_size: map_size as u32,
    };
    roster.types = types;
    roster.records = records;
    roster.names = names;
    roster.data = data;
    proof {
        if layout_fits(expected) {
            vstd::arithmetic::div_mod::lemma_small_mod(
                (nbr_types * 12) as nat,
                (usize::MAX + 1) as nat,
            );
            vstd::arithmetic::div_mod::lemma_small_mod(
                (nbr_assets * 32) as nat,
                (usize::MAX + 1) as nat,
            );
            assert(roster@ == expected);
        }
    }
}

/// The records, copied and sorted stably by signed id.
fn sorted_records(records: &Vec<PropRecord>) -> (r: Vec<PropRecord>)
    ensures
        records_view(r@) == sort_by_id(records_view(records@)),
{
    let ghost rv = records_view(records@);
    let mut sorted: Vec<PropRecord> = Vec::new();
    let mut j: usize = 0;
    while j < records.len()
        invariant
            j <= records@.len(),
            rv == records_view(records@),
            records_view(sorted@) == sort_by_id(rv.subrange(0, j as int)),
        decreases records@.len() - j,
    {
        let x = copy_record(&records[j]);
        let id = x.rec.id;
        let ghost sv = records_view(sorted@);
        let mut p = sorted.len();
        assert(sv.subrange(0, p as int) =~= sv);
        while p > 0 && sorted[p - 1].rec.id > id
            invariant
                p <= sorted@.len(),
                sv == records_view(sorted@),
                insert_pos(sv, id) == insert_pos(sv.subrange(0, p as int), id),
            decreases p,
        {
            assert(sv.subrange(0, p as int).drop_last() =~= sv.subrange(0, p as int - 1));
            p = p - 1;
        }
        sorted.insert(p, x);
        proof {
            let next = rv.subrange(0, j as int + 1);
            assert(next.drop_last() =~= rv.subrange(0, j as int));
            assert(next.last() == rv[j as int]);
            assert(records_view(sorted@) =~= sv.insert(p as int, x@));
        }
        j = j + 1;
    }
    assert(rv.subrange(0, j as int) =~= rv);
    sorted
}

/// Copies of the records whose owning type is `owner` (`None`: no type holds
/// them), in record order.
fn pick_records(records: &Vec<PropRecord>, types: &Vec<AssetTypeRec>, owner: Option<usize>) -> (r:
    Vec<PropRecord>)
    ensures
        records_view(r@) == picked(
            records_view(records@),
            types@,
            match owner {
                Some(k) => Some(k as int),
                None => None,
            },
            records@.len() as int,
        ),
{
    let ghost rv = records_view(records@);
    let ghost o: Option<int> = match owner {
        Some(k) => Some(k as int),
        None => None,
    };
    let mut out: Vec<PropRecord> = Vec::new();
    let mut j: usize = 0;
    while j < records.len()
        invariant
            j <= records@.len(),
            rv == records_view(records@),
            o == (match owner {
                Some(k) => Some(k as int),
                None => None,
            }),
            records_view(out@) == picked(rv, types@, o, j as int),
        decreases records@.len() - j,
    {
        let holder = position_of_holder(types, j);
        let same = match (holder, owner) {
            (Some(h), Some(k)) => h == k,
            (None, None) => true,
            _ => false,
        };
        let ghost before = records_view(out@);
        if same {
            let c = copy_record(&records[j]);
            out.push(c);
            assert(records_view(out@) =~= before.push(rv[j as int]));
        }
        j = j + 1;
    }
    out
}

/// Reorder each type's records by signed id and repack; records no type
/// holds follow, in order.
pub fn canonicalise(roster: &mut Roster)
    ensures
        finished_as(final(roster)@, spec_canonicalise(old(roster)@)),
{
    let ghost rv = old(roster)@.records;
    let ghost tv = old(roster)@.types;
    let mut ordered: Vec<PropRecord> = Vec::new();
    let mut i: usize = 0;
    while i < roster.types.len()
        invariant
            i <= tv.len(),
            roster@ == old(roster)@,
            rv == roster@.records,
            tv == roster.types@,
            records_view(ordered@) == grouped(rv, tv, i as int),
        decreases tv.len() - i,
    {
        let ghost before = records_view(ordered@);
        let group = pick_records(&roster.records, &roster.types, Some(i));
        let mut sorted = sorted_records(&group);
        ordered.append(&mut sorted);
        assert(records_view(ordered@) =~= before + sort_by_id(
            picked(rv, tv, Some(i as int), rv.len() as int),
        ));
        i = i + 1;
    }
    let ghost g = records_view(ordered@);
    let mut rest = pick_records(&roster.records, &roster.types, None);
    ordered.append(&mut rest);
    roster.records = ordered;
    proof {
        assert(roster@.records =~= canonical_order(rv, tv));
    }
    finish(roster);
}

/// The index of the first type of this kind.
fn position_of_kind(types: &Vec<AssetTypeRec>, kind: AssetType) -> (r: Option<usize>)
    ensures
        r matches Some(i) ==> first_of_kind(types@, kind, 0) == Some(i as int),
        r is None ==> first_of_kind(types@, kind, 0) is None,
{
    let mut i: usize = 0;
    while i < types.len()
        invariant
            i <= types@.len(),
            first_of_kind(types@, kind, 0) == first_of_kind(types@, kind, i as int),
        decreases types@.len() - i,
    {
        if types[i].kind() == kind {
            return Some(i);
        }
        i = i + 1;
    }
    None
}

/// Where an insert of `id` into `[start, end)` lands.
fn find_insert_point(records: &Vec<PropRecord>, start: usize, end: usize, id: i32) -> (r: usize)
    requires
        start <= end <= records@.len(),
    ensures
        r <= end,
        r == insert_point(records_view(records@), start as int, end as int, id),
{
    let ghost rv = records_view(records@);
    let mut f = start;
    while f < end && records[f].rec.id != id
        invariant
            start <= f <= end,
            end <= records@.len(),
            rv == records_view(records@),
            first_with_id(rv, start as int, end as int, id) == first_with_id(
                rv,
                f as int,
                end as int,
                id,
            ),
        decreases end - f,
    {
        f = f + 1;
    }
    if f < end {
        let mut e = f;
        while e < end && records[e].rec.id == id
            invariant
                f <= e <= end,
                end <= records@.len(),
                rv == records_view(records@),
                run_end(rv, f as int, end as int, id) == run_end(rv, e as int, end as int, id),
            decreases end - e,
        {
            e = e + 1;
        }
        e
    } else {
        let mut g = start;
        while g < end && records[g].rec.id <= id
            invariant
                start <= g <= end,
                end <= records@.len(),
                rv == records_view(records@),
                first_greater(rv, start as int, end as int, id) == first_greater(
                    rv,
                    g as int,
                    end as int,
                    id,
                ),
            decreases end - g,
        {
            g = g + 1;
        }
        g
    }
}

/// Insert `record` into `kind`'s run, creating the type when it is absent.
pub fn add_typed(roster: &mut Roster, record: PropRecord, kind: AssetType)
    ensures
        finished_as(final(roster)@, spec_add_typed(old(roster)@, record@, kind)),
{
    let ghost v = old(roster)@;
    let n = roster.records.len();
    proof {
        lemma_first_of_kind_in_range(v.types, kind, 0);
    }
    let ti = match position_of_kind(&roster.types, kind) {
        Some(i) => i,
        None => {
            let raw = kind.to_raw();
            let fresh = AssetTypeRec { asset_type: raw as i32, nbr_assets: 0, first_asset: n as i32 };
            roster.types.push(fresh);
            roster.types.len() - 1
        },
    };
    let ghost types = roster.types@;
    assert(with_kind(v.types, kind, n as int) == (types, ti as int));
    let t = roster.types[ti];
    let first: usize = if t.first_asset < 0 {
        0
    } else {
        t.first_asset as usize
    };
    let start = if first < n {
        first
    } else {
        n
    };
    let count: usize = if t.nbr_assets < 0 {
        0
    } else {
        t.nbr_assets as usize
    };
    let reach = start.saturating_add(count);
    let end = if reach < n {
        reach
    } else {
        n
    };
    let at = find_insert_point(&roster.records, start, end, record.rec.id);
    let ghost r = record@;
    roster.records.insert(at, record);
    let bumped: i32 = if t.nbr_assets == i32::MAX {
        i32::MAX
    } else {
        t.nbr_assets + 1
    };
    roster.types.set(
        ti,
        AssetTypeRec { asset_type: t.asset_type, nbr_assets: bumped, first_asset: t.first_asset },
    );
    proof {
        assert(roster@.records =~= v.records.insert(at as int, r));
    }
    finish(roster);
}

/// The index of the first record with this exact identity.
fn position_of_key(records: &Vec<PropRecord>, key: PropKey) -> (r: Option<usize>)
    ensures
        r matches Some(i) ==> key_index(records_view(records@), key, 0) == Some(i as int),
        r is None ==> key_index(records_view(records@), key, 0) is None,
{
    let ghost rv = records_view(records@);
    let mut i: usize = 0;
    while i < records.len()
        invariant
            i <= records@.len(),
            rv == records_view(records@),
            key_index(rv, key, 0) == key_index(rv, key, i as int),
        decreases records@.len() - i,
    {
        if records[i].rec.id == key.id && records[i].rec.crc == key.crc {
            return Some(i);
        }
        i = i + 1;
    }
    None
}

/// The index of the first type whose declared run holds `index`.
fn position_of_holder(types: &Vec<AssetTypeRec>, index: usize) -> (r: Option<usize>)
    ensures
        r matches Some(i) ==> type_holding(types@, index as int, 0) == Some(i as int),
        r is None ==> type_holding(types@, index as int, 0) is None,
{
    let mut i: usize = 0;
    while i < types.len()
        invariant
            i <= types@.len(),
            type_holding(types@, index as int, 0) == type_holding(types@, index as int, i as int),
        decreases types@.len() - i,
    {
        let t = types[i];
        let start: usize = if t.first_asset < 0 {
            0
        } else {
            t.first_asset as usize
        };
        let count: usize = if t.nbr_assets < 0 {
            0
        } else {
            t.nbr_assets as usize
        };
        if index >= start && index < start + count {
            return Some(i);
        }
        i = i + 1;
    }
    None
}

/// Remove and return the record with this exact identity, if present.
pub fn remove_prop(roster: &mut Roster, key: PropKey) -> (r: Option<PropRecord>)
    ensures
        match key_index(old(roster)@.records, key, 0) {
            None => r is None && final(roster)@ == old(roster)@,
            Some(i) => r matches Some(p) && p@ == old(roster)@.records[i] && finished_as(
                final(roster)@,
                spec_remove_at(old(roster)@, i),
            ),
        },
{
    let ghost v = old(roster)@;
    proof {
        lemma_key_index_in_range(v.records, key, 0);
        lemma_type_holding_in_range(v.types, 0, 0);
    }
    let index = match position_of_key(&roster.records, key) {
        Some(i) => i,
        None => {
            return None;
        },
    };
    let removed = roster.records.remove(index);
    proof {
        lemma_type_holding_in_range(v.types, index as int, 0);
    }
    match position_of_holder(&roster.types, index) {
        Some(i) => {
            let t = roster.types[i];
            let lowered: i32 = if t.nbr_assets == i32::MIN {
                i32::MIN
            } else {
                t.nbr_assets - 1
            };
            roster.types.set(
                i,
                AssetTypeRec {
                    asset_type: t.asset_type,
                    nbr_assets: lowered,
                    first_asset: t.first_asset,
                },
            );
        },
        None => {},
    }
    proof {
        assert(roster@.records =~= v.records.remove(index as int));
    }
    finish(roster);
    Some(removed)
}

/// The index of the first record with this identity, through the roster.
pub fn record_index(roster: &Roster, key: PropKey) -> (r: Option<usize>)
    ensures
        r matches Some(i) ==> key_index(roster@.records, key, 0) == Some(i as int) && i
            < roster@.records.len(),
        r is None ==> key_index(roster@.records, key, 0) is None,
{
    let r = position_of_key(&roster.records, key);
    proof {
        lemma_key_index_in_range(roster@.records, key, 0);
    }
    r
}

/// A found type index lies inside the table.
pub proof fn lemma_first_of_kind_in_range(types: Seq<AssetTypeRec>, kind: AssetType, i: int)
    ensures
        first_of_kind(types, kind, i) matches Some(k) ==> i <= k < types.len(),
    decreases types.len() - i,
{
    if 0 <= i < types.len() && kind_of(types[i]) != kind {
        lemma_first_of_kind_in_range(types, kind, i + 1);
    }
}

/// A holding type lies inside the table.
pub proof fn lemma_type_holding_in_range(types: Seq<AssetTypeRec>, index: int, i: int)
    ensures
        type_holding(types, index, i) matches Some(k) ==> i <= k < types.len(),
    decreases types.len() - i,
{
    if 0 <= i < types.len() && !(nonneg(types[i].first_asset) <= index < nonneg(
        types[i].first_asset,
    ) + nonneg(types[i].nbr_assets)) {
        lemma_type_holding_in_range(types, index, i + 1);
    }
}

/// A found index lies inside the records.
pub proof fn lemma_key_index_in_range(records: Seq<RecordView>, key: PropKey, i: int)
    ensures
        key_index(records, key, i) matches Some(k) ==> i <= k < records.len() && records[k].rec.id
            == key.id && records[k].rec.crc == key.crc,
    decreases records.len() - i,
{
    if 0 <= i < records.len() && !(records[i].rec.id == key.id && records[i].rec.crc == key.crc) {
        lemma_key_index_in_range(records, key, i + 1);
    }
}

/// A record with its stored CRC replaced.
pub open spec fn with_crc(r: RecordView, crc: u32) -> RecordView {
    RecordView {
        rec: AssetRec {
            id: r.rec.id,
            r_handle: r.rec.r_handle,
            data_offset: r.rec.data_offset,
            data_size: r.rec.data_size,
            last_use_time: r.rec.last_use_time,
            name_offset: r.rec.name_offset,
            flags: r.rec.flags,
            crc,
        },
        ..r
    }
}

/// A roster whose records carry these stored CRCs, everything else kept.
pub open spec fn with_crcs_view(v: RosterView, crcs: Seq<u32>) -> RosterView {
    RosterView {
        records: Seq::new(v.records.len(), |i: int| with_crc(v.records[i], crcs[i])),
        ..v
    }
}

/// A copy of a roster whose records carry the given stored CRCs, one per
/// record; every other field, the data region and the names are kept.
pub fn with_crcs(roster: &Roster, crcs: &Vec<u32>) -> (r: Roster)
    requires
        crcs@.len() == roster@.records.len(),
    ensures
        r@ == with_crcs_view(roster@, crcs@),
{
    let ghost v = roster@;
    let mut records: Vec<PropRecord> = Vec::new();
    let mut i: usize = 0;
    while i < roster.records.len()
        invariant
            i <= roster.records@.len(),
            crcs@.len() == roster.records@.len(),
            v == roster@,
            records@.len() == i,
            forall|j: int| 0 <= j < i ==> records@[j]@ == with_crc(v.records[j], crcs@[j]),
        decreases roster.records@.len() - i,
    {
        let mut c = copy_record(&roster.records[i]);
        c.rec.crc = crcs[i];
        records.push(c);
        i = i + 1;
    }
    let mut types: Vec<AssetTypeRec> = Vec::new();
    let mut t: usize = 0;
    while t < roster.types.len()
        invariant
            t <= roster.types@.len(),
            types@ == roster.types@.subrange(0, t as int),
        decreases roster.types@.len() - t,
    {
        types.push(roster.types[t]);
        t = t + 1;
        assert(types@ =~= roster.types@.subrange(0, t as int));
    }
    assert(roster.types@.subrange(0, t as int) =~= roster.types@);
    let mut names: Vec<(u32, String)> = Vec::new();
    let mut k: usize = 0;
    while k < roster.names.len()
        invariant
            k <= roster.names@.len(),
            names_view(names@) == names_view(roster.names@.subrange(0, k as int)),
        decreases roster.names@.len() - k,
    {
        let ghost before = names_view(names@);
        let entry = (roster.names[k].0, roster.names[k].1.clone());
        assert(entry.1@ == roster.names@[k as int].1@);
        names.push(entry);
        assert(names_view(names@) =~= before.push((entry.0, entry.1@)));
        assert(roster.names@.subrange(0, k as int + 1).drop_last() =~= roster.names@.subrange(
            0,
            k as int,
        ));
        k = k + 1;
        assert(names_view(names@) =~= names_view(roster.names@.subrange(0, k as int)));
    }
    assert(roster.names@.subrange(0, k as int) =~= roster.names@);
    let r = Roster {
        file: roster.file,
        map: roster.map,
        types,
        records,
        names,
        data: slice_to_vec(roster.data.as_slice()),
        dropped: roster.dropped,
    };
    assert(records_view(r.records@) =~= with_crcs_view(v, crcs@).records);
    r
}

/// Sorting keeps every record: the sorted run is a permutation.
pub proof fn lemma_sort_keeps(s: Seq<RecordView>)
    ensures
        sort_by_id(s).to_multiset() == s.to_multiset(),
    decreases s.len(),
{
    broadcast use vstd::seq_lib::to_multiset_build, vstd::seq_lib::to_multiset_insert;

    if s.len() == 0 {
        assert(sort_by_id(s) =~= Seq::<RecordView>::empty());
        assert(s =~= Seq::<RecordView>::empty());
    } else {
        lemma_sort_keeps(s.drop_last());
        assert(s.drop_last().push(s.last()) =~= s);
        let sorted = sort_by_id(s.drop_last());
        lemma_insert_pos_in_range(sorted, s.last().rec.id);
    }
}

proof fn lemma_insert_pos_in_range(sorted: Seq<RecordView>, id: i32)
    ensures
        0 <= insert_pos(sorted, id) <= sorted.len(),
    decreases sorted.len(),
{
    if sorted.len() > 0 {
        lemma_insert_pos_in_range(sorted.drop_last(), id);
    }
}

proof fn lemma_empty_multiset()
    ensures
        Seq::<RecordView>::empty().to_multiset() == Multiset::<RecordView>::empty(),
{
    broadcast use vstd::seq_lib::to_multiset_len, vstd::multiset::lemma_multiset_empty_len;

    assert(Seq::<RecordView>::empty().to_multiset().len() == 0);
}

/// The records of the first `m` that the types `0..k` own, as a multiset.
pub open spec fn owned_multiset(records: Seq<RecordView>, types: Seq<AssetTypeRec>, k: int, m: int) -> Multiset<RecordView>
    decreases k,
{
    if k <= 0 {
        Multiset::empty()
    } else {
        owned_multiset(records, types, k - 1, m).add(picked(records, types, Some(k - 1), m).to_multiset())
    }
}

proof fn lemma_owned_step(records: Seq<RecordView>, types: Seq<AssetTypeRec>, k: int, m: int)
    requires
        0 <= m < records.len(),
    ensures
        owned_multiset(records, types, k, m + 1) == (match type_holding(types, m, 0) {
            Some(o) => if o < k {
                owned_multiset(records, types, k, m).insert(records[m])
            } else {
                owned_multiset(records, types, k, m)
            },
            None => owned_multiset(records, types, k, m),
        }),
    decreases k,
{
    broadcast use vstd::seq_lib::to_multiset_build, vstd::multiset::group_multiset_axioms;

    lemma_type_holding_in_range(types, m, 0);
    if k > 0 {
        lemma_owned_step(records, types, k - 1, m);
        let before = picked(records, types, Some(k - 1), m);
        assert(picked(records, types, Some(k - 1), m + 1) == if type_holding(types, m, 0) == Some(k - 1) {
            before.push(records[m])
        } else {
            before
        });
        assert(owned_multiset(records, types, k, m + 1) =~= (match type_holding(types, m, 0) {
            Some(o) => if o < k {
                owned_multiset(records, types, k, m).insert(records[m])
            } else {
                owned_multiset(records, types, k, m)
            },
            None => owned_multiset(records, types, k, m),
        }));
    }
}

proof fn lemma_owned_all(records: Seq<RecordView>, types: Seq<AssetTypeRec>, m: int)
    requires
        0 <= m <= records.len(),
    ensures
        owned_multiset(records, types, types.len() as int, m).add(
            picked(records, types, None, m).to_multiset(),
        ) == records.subrange(0, m).to_multiset(),
    decreases m,
{
    broadcast use vstd::seq_lib::to_multiset_build, vstd::multiset::group_multiset_axioms;

    let t = types.len() as int;
    if m == 0 {
        assert(owned_multiset(records, types, t, 0) =~= Multiset::empty()) by {
            lemma_owned_zero(records, types, t);
        }
        assert(records.subrange(0, 0) =~= Seq::<RecordView>::empty());
        assert(picked(records, types, None, 0) =~= Seq::<RecordView>::empty());
        lemma_empty_multiset();
        assert(Multiset::<RecordView>::empty().add(Seq::<RecordView>::empty().to_multiset()) =~= Seq::<RecordView>::empty().to_multiset());
    } else {
        lemma_owned_all(records, types, m - 1);
        lemma_owned_step(records, types, t, m - 1);
        lemma_type_holding_in_range(types, m - 1, 0);
        assert(records.subrange(0, m) =~= records.subrange(0, m - 1).push(records[m - 1]));
        let before = picked(records, types, None, m - 1);
        assert(picked(records, types, None, m) == if type_holding(types, m - 1, 0) is None {
            before.push(records[m - 1])
        } else {
            before
        });
        assert(owned_multiset(records, types, t, m).add(picked(records, types, None, m).to_multiset())
            =~= records.subrange(0, m).to_multiset());
    }
}

proof fn lemma_owned_zero(records: Seq<RecordView>, types: Seq<AssetTypeRec>, k: int)
    ensures
        owned_multiset(records, types, k, 0) == Multiset::<RecordView>::empty(),
    decreases k,
{
    broadcast use vstd::multiset::group_multiset_axioms;

    if k > 0 {
        lemma_owned_zero(records, types, k - 1);
        assert(picked(records, types, Some(k - 1), 0) =~= Seq::<RecordView>::empty());
        lemma_empty_multiset();
        assert(owned_multiset(records, types, k, 0) =~= Multiset::<RecordView>::empty());
    }
}

proof fn lemma_grouped_multiset(records: Seq<RecordView>, types: Seq<AssetTypeRec>, k: int)
    ensures
        grouped(records, types, k).to_multiset() == owned_multiset(records, types, k, records.len() as int),
    decreases k,
{
    broadcast use vstd::seq_lib::lemma_multiset_commutative;

    if k <= 0 {
        assert(grouped(records, types, k) =~= Seq::<RecordView>::empty());
        lemma_empty_multiset();
    } else {
        lemma_grouped_multiset(records, types, k - 1);
        lemma_sort_keeps(picked(records, types, Some(k - 1), records.len() as int));
    }
}

/// Canonicalising reorders and never loses or repeats a record: the
/// canonical order is a permutation of the records.
pub proof fn lemma_canonical_order_permutes(records: Seq<RecordView>, types: Seq<AssetTypeRec>)
    ensures
        canonical_order(records, types).to_multiset() == records.to_multiset(),
{
    broadcast use vstd::seq_lib::lemma_multiset_commutative;

    lemma_grouped_multiset(records, types, types.len() as int);
    lemma_owned_all(records, types, records.len() as int);
    assert(records.subrange(0, records.len() as int) =~= records);
}

/// Whether records `start..end` ascend by signed id.
pub open spec fn ascending(records: Seq<RecordView>, start: int, end: int) -> bool {
    forall|a: int, b: int|
        start <= a <= b < end ==> (#[trigger] records[a]).rec.id <= (#[trigger] records[b]).rec.id
}

proof fn lemma_with_id_facts(records: Seq<RecordView>, j: int, end: int, id: i32)
    requires
        0 <= j <= end <= records.len(),
    ensures
        j <= first_with_id(records, j, end, id) <= end,
        forall|k: int|
            j <= k < first_with_id(records, j, end, id) ==> (#[trigger] records[k]).rec.id != id,
        first_with_id(records, j, end, id) < end ==> records[first_with_id(
            records,
            j,
            end,
            id,
        )].rec.id == id,
    decreases end - j,
{
    if j < end && records[j].rec.id != id {
        lemma_with_id_facts(records, j + 1, end, id);
    }
}

proof fn lemma_run_end_facts(records: Seq<RecordView>, j: int, end: int, id: i32)
    requires
        0 <= j <= end <= records.len(),
    ensures
        j <= run_end(records, j, end, id) <= end,
        forall|k: int| j <= k < run_end(records, j, end, id) ==> (#[trigger] records[k]).rec.id == id,
        run_end(records, j, end, id) < end ==> records[run_end(records, j, end, id)].rec.id != id,
    decreases end - j,
{
    if j < end && records[j].rec.id == id {
        lemma_run_end_facts(records, j + 1, end, id);
    }
}

proof fn lemma_greater_facts(records: Seq<RecordView>, j: int, end: int, id: i32)
    requires
        0 <= j <= end <= records.len(),
    ensures
        j <= first_greater(records, j, end, id) <= end,
        forall|k: int| j <= k < first_greater(records, j, end, id) ==> (#[trigger] records[k]).rec.id <= id,
        first_greater(records, j, end, id) < end ==> records[first_greater(records, j, end, id)].rec.id
            > id,
    decreases end - j,
{
    if j < end && records[j].rec.id <= id {
        lemma_greater_facts(records, j + 1, end, id);
    }
}

/// In an ascending run, the insert point splits the run into the records
/// whose id is not greater than `id` and those whose id is greater.
pub proof fn lemma_insert_point_splits(records: Seq<RecordView>, start: int, end: int, id: i32)
    requires
        0 <= start <= end <= records.len(),
        ascending(records, start, end),
    ensures
        start <= insert_point(records, start, end, id) <= end,
        forall|k: int|
            start <= k < insert_point(records, start, end, id) ==> (#[trigger] records[k]).rec.id
                <= id,
        forall|k: int|
            insert_point(records, start, end, id) <= k < end ==> (#[trigger] records[k]).rec.id > id,
{
    lemma_with_id_facts(records, start, end, id);
    let f = first_with_id(records, start, end, id);
    if f < end {
        lemma_run_end_facts(records, f, end, id);
        let e = run_end(records, f, end, id);
        assert forall|k: int| start <= k < e implies (#[trigger] records[k]).rec.id <= id by {
            if k < f {
                assert(records[k].rec.id <= records[f].rec.id);
            }
        }
        assert forall|k: int| e <= k < end implies (#[trigger] records[k]).rec.id > id by {
            assert(records[e].rec.id >= records[f].rec.id);
            assert(records[k].rec.id >= records[e].rec.id);
        }
    } else {
        lemma_greater_facts(records, start, end, id);
        let g = first_greater(records, start, end, id);
        assert forall|k: int| g <= k < end implies (#[trigger] records[k]).rec.id > id by {
            assert(records[k].rec.id >= records[g].rec.id);
        }
    }
}

/// Adding a record keeps its type's run in ascending order of signed id: if
/// the run the insert works in ascends, then afterwards that run with the
/// new record ascends, the old records keep their order, and the new record
/// sits after every record whose id is not greater than its own (so after
/// the other variants of its id) and before every greater one.
pub proof fn lemma_add_keeps_run_sorted(v: RosterView, r: RecordView, kind: AssetType)
    requires
        ({
            let n = v.records.len() as int;
            let tw = with_kind(v.types, kind, n);
            let b = insert_bounds(tw.0[tw.1], n);
            ascending(v.records, b.0, b.1)
        }),
    ensures
        ({
            let n = v.records.len() as int;
            let tw = with_kind(v.types, kind, n);
            let b = insert_bounds(tw.0[tw.1], n);
            let w = spec_add_typed(v, r, kind);
            &&& w.records.len() == n + 1
            &&& ascending(w.records, b.0, b.1 + 1)
            &&& exists|at: int|
                b.0 <= at <= b.1 && (#[trigger] w.records[at]).rec.id == r.rec.id && w.records[at].blob
                    == r.blob && (forall|k: int|
                    b.0 <= k < at ==> (#[trigger] w.records[k]).rec.id == v.records[k].rec.id
                        && w.records[k].rec.id <= r.rec.id) && (forall|k: int|
                    at < k <= b.1 ==> (#[trigger] w.records[k]).rec.id == v.records[k - 1].rec.id
                        && w.records[k].rec.id > r.rec.id)
        }),
{
    let n = v.records.len() as int;
    let tw = with_kind(v.types, kind, n);
    let b = insert_bounds(tw.0[tw.1], n);
    let start = b.0;
    let end = b.1;
    assert(0 <= start <= end <= n);
    let at = insert_point(v.records, start, end, r.rec.id);
    lemma_insert_point_splits(v.records, start, end, r.rec.id);
    let ins = v.records.insert(at, r);
    let w = spec_add_typed(v, r, kind);
    assert(w.records == Seq::new((n + 1) as nat, |k: int| finished_record(ins, k)));
    assert forall|k: int| 0 <= k < n + 1 implies (#[trigger] w.records[k]).rec.id == ins[k].rec.id
        && w.records[k].blob == ins[k].blob by {}
    assert forall|k: int| start <= k < at implies (#[trigger] w.records[k]).rec.id
        == v.records[k].rec.id && w.records[k].rec.id <= r.rec.id by {
        assert(ins[k] == v.records[k]);
    }
    assert forall|k: int| at < k <= end implies (#[trigger] w.records[k]).rec.id
        == v.records[k - 1].rec.id && w.records[k].rec.id > r.rec.id by {
        assert(ins[k] == v.records[k - 1]);
    }
    assert(w.records[at].rec.id == r.rec.id && w.records[at].blob == r.blob);
    assert forall|a: int, c: int| start <= a <= c < end + 1 implies (#[trigger] w.records[a]).rec.id
        <= (#[trigger] w.records[c]).rec.id by {
        if c < at {
            assert(v.records[a].rec.id <= v.records[c].rec.id);
        } else if a > at {
            assert(v.records[a - 1].rec.id <= v.records[c - 1].rec.id);
        } else if a == at && c > at {
        } else if a < at && c == at {
        } else if a < at && c > at {
        }
    }
}

/// Removing record `i` drops that record and nothing else: the records after
/// it move up by one with their identity, blob and name, the type whose run
/// held it counts one record fewer, and every other type is unchanged.
pub proof fn lemma_remove_drops_only_that_record(v: RosterView, i: int)
    requires
        0 <= i < v.records.len(),
    ensures
        ({
            let w = spec_remove_at(v, i);
            &&& w.records.len() == v.records.len() - 1
            &&& forall|k: int|
                0 <= k < w.records.len() ==> {
                    let o = if k < i {
                        k
                    } else {
                        k + 1
                    };
                    &&& (#[trigger] w.records[k]).rec.id == v.records[o].rec.id
                    &&& w.records[k].blob == v.records[o].blob
                    &&& w.records[k].name == v.records[o].name
                }
            &&& w.types.len() == v.types.len()
            &&& forall|t: int|
                0 <= t < v.types.len() ==> (#[trigger] w.types[t]).asset_type == v.types[t].asset_type
                    && w.types[t].nbr_assets == v.types[t].nbr_assets - if type_holding(v.types, i, 0)
                    == Some(t) {
                    1int
                } else {
                    0int
                }
        }),
{
    let w = spec_remove_at(v, i);
    let rm = v.records.remove(i);
    lemma_type_holding_in_range(v.types, i, 0);
    lemma_holding_holds(v.types, i, 0);
    assert forall|k: int| 0 <= k < w.records.len() implies {
        let o = if k < i {
            k
        } else {
            k + 1
        };
        &&& (#[trigger] w.records[k]).rec.id == v.records[o].rec.id
        &&& w.records[k].blob == v.records[o].blob
        &&& w.records[k].name == v.records[o].name
    } by {
        assert(w.records[k] == finished_record(rm, k));
        if k < i {
            assert(rm[k] == v.records[k]);
        } else {
            assert(rm[k] == v.records[k + 1]);
        }
    }
}

proof fn lemma_holding_holds(types: Seq<AssetTypeRec>, index: int, i: int)
    ensures
        type_holding(types, index, i) matches Some(t) ==> 1 <= types[t].nbr_assets,
    decreases types.len() - i,
{
    if 0 <= i < types.len() && !(nonneg(types[i].first_asset) <= index < nonneg(types[i].first_asset)
        + nonneg(types[i].nbr_assets)) {
        lemma_holding_holds(types, index, i + 1);
    }
}

proof fn lemma_insert_pos_splits(sorted: Seq<RecordView>, id: i32)
    requires
        ascending(sorted, 0, sorted.len() as int),
    ensures
        forall|k: int| 0 <= k < insert_pos(sorted, id) ==> (#[trigger] sorted[k]).rec.id <= id,
        forall|k: int| insert_pos(sorted, id) <= k < sorted.len() ==> (#[trigger] sorted[k]).rec.id > id,
    decreases sorted.len(),
{
    lemma_insert_pos_in_range(sorted, id);
    if sorted.len() > 0 {
        let d = sorted.drop_last();
        if sorted.last().rec.id <= id {
            assert forall|k: int| 0 <= k < sorted.len() implies (#[trigger] sorted[k]).rec.id <= id by {
                assert(sorted[k].rec.id <= sorted[sorted.len() - 1].rec.id);
            }
        } else {
            assert(ascending(d, 0, d.len() as int)) by {
                assert forall|a: int, b: int| 0 <= a <= b < d.len() implies (#[trigger] d[a]).rec.id
                    <= (#[trigger] d[b]).rec.id by {
                    assert(sorted[a].rec.id <= sorted[b].rec.id);
                }
            }
            lemma_insert_pos_splits(d, id);
            assert forall|k: int| 0 <= k < insert_pos(sorted, id) implies (#[trigger] sorted[k]).rec.id
                <= id by {
                assert(sorted[k] == d[k]);
            }
            assert forall|k: int| insert_pos(sorted, id) <= k < sorted.len() implies (
            #[trigger] sorted[k]).rec.id > id by {
                if k < d.len() {
                    assert(sorted[k] == d[k]);
                }
            }
        }
    }
}

/// Sorting by id leaves the records in ascending order of signed id.
pub proof fn lemma_sort_ascends(s: Seq<RecordView>)
    ensures
        sort_by_id(s).len() == s.len(),
        ascending(sort_by_id(s), 0, s.len() as int),
    decreases s.len(),
{
    if s.len() > 0 {
        let d = s.drop_last();
        lemma_sort_ascends(d);
        let sorted = sort_by_id(d);
        let id = s.last().rec.id;
        let pos = insert_pos(sorted, id);
        lemma_insert_pos_in_range(sorted, id);
        lemma_insert_pos_splits(sorted, id);
        let out = sorted.insert(pos, s.last());
        assert(sort_by_id(s) == out);
        assert forall|a: int, b: int| 0 <= a <= b < out.len() implies (#[trigger] out[a]).rec.id
            <= (#[trigger] out[b]).rec.id by {
            let ia = if a < pos {
                a
            } else {
                a - 1
            };
            let ib = if b < pos {
                b
            } else {
                b - 1
            };
            if a != pos && b != pos {
                assert(out[a] == sorted[ia]);
                assert(out[b] == sorted[ib]);
                assert(sorted[ia].rec.id <= sorted[ib].rec.id);
            } else if a == pos && b != pos {
                assert(out[b] == sorted[b - 1]);
            } else if a != pos && b == pos {
                assert(out[a] == sorted[a]);
            }
        }
    }
}

proof fn lemma_grouped_prefix(records: Seq<RecordView>, types: Seq<AssetTypeRec>, a: int, b: int)
    requires
        0 <= a <= b,
    ensures
        grouped(records, types, a).len() <= grouped(records, types, b).len(),
        grouped(records, types, b).subrange(0, grouped(records, types, a).len() as int) == grouped(
            records,
            types,
            a,
        ),
    decreases b - a,
{
    if a < b {
        lemma_grouped_prefix(records, types, a, b - 1);
        let g = grouped(records, types, b - 1);
        let ga = grouped(records, types, a);
        assert(grouped(records, types, b).subrange(0, ga.len() as int) =~= g.subrange(
            0,
            ga.len() as int,
        ));
    } else {
        assert(grouped(records, types, b).subrange(0, grouped(records, types, a).len() as int)
            =~= grouped(records, types, a));
    }
}

/// After canonicalising, each type's block of records ascends by signed id:
/// the block of type `k` is the stretch between the records of the types
/// before it and those of the types up to it.
pub proof fn lemma_canonical_blocks_ascend(v: RosterView, k: int)
    requires
        0 <= k < v.types.len(),
    ensures
        ({
            let lo = grouped(v.records, v.types, k).len() as int;
            let hi = grouped(v.records, v.types, k + 1).len() as int;
            &&& lo <= hi <= spec_canonicalise(v).records.len()
            &&& ascending(spec_canonicalise(v).records, lo, hi)
        }),
{
    let rs = v.records;
    let ts = v.types;
    let ord = canonical_order(rs, ts);
    let g = grouped(rs, ts, k);
    let block = sort_by_id(picked(rs, ts, Some(k), rs.len() as int));
    lemma_sort_ascends(picked(rs, ts, Some(k), rs.len() as int));
    lemma_grouped_prefix(rs, ts, k + 1, ts.len() as int);
    let gk1 = grouped(rs, ts, k + 1);
    assert(gk1 == g + block);
    let lo = g.len() as int;
    let hi = gk1.len() as int;
    let w = spec_canonicalise(v);
    assert(w.records.len() == ord.len());
    assert forall|a: int, b: int| lo <= a <= b < hi implies (#[trigger] w.records[a]).rec.id
        <= (#[trigger] w.records[b]).rec.id by {
        assert(w.records[a] == finished_record(ord, a));
        assert(w.records[b] == finished_record(ord, b));
        assert(ord[a] == grouped(rs, ts, ts.len() as int)[a]);
        assert(ord[b] == grouped(rs, ts, ts.len() as int)[b]);
        assert(grouped(rs, ts, ts.len() as int)[a] == gk1[a]);
        assert(grouped(rs, ts, ts.len() as int)[b] == gk1[b]);
        assert(gk1[a] == block[a - lo]);
        assert(gk1[b] == block[b - lo]);
    }
}

} // verus!
