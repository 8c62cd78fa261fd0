//! What a favourites write leaves behind for the next read: on a roster whose
//! type table lays its records out back to back and which holds at most one
//! `Fave` record,
//! [`Favorites::apply_to`](crate::favorites_trash::Favorites::apply_to)
//! followed by [`Favorites::read`](crate::favorites_trash::Favorites::read)
//! gives the list back.

use vstd::prelude::*;

use crate::favorites_trash::{
    applied, distinct_keys, fave_in_types, fave_record_view, first_id_in, first_loose_fave,
    lemma_payload_round_trip, spec_encode_keys, spec_fave_index, spec_read_favorites,
    FAVE_RECORD_ID,
};
use crate::prp::mutate::{
    finished_as, first_greater, first_of_kind, first_with_id, insert_bounds, insert_point, kind_of, nonneg,
    key_index, reindexed, run_end, running_first, sat_add_i32, spec_add_typed, spec_remove_at,
    type_bounds, type_holding, with_kind,
};
use crate::prp::{AssetType, AssetTypeRec, PropKey, RecordView, RosterView};

verus! {

/// The type table lays the records out back to back: every count is
/// non-negative, every run starts where the runs before it end, and the runs
/// together cover exactly the records, fewer than `i32::MAX` of them.
pub open spec fn types_tile(v: RosterView) -> bool {
    &&& forall|t: int|
        0 <= t < v.types.len() ==> 0 <= (#[trigger] v.types[t]).nbr_assets && v.types[t].first_asset
            == running_first(v.types, t)
    &&& running_first(v.types, v.types.len() as int) == v.records.len()
    &&& v.records.len() < i32::MAX
}

/// No record carries the `Fave` id.
pub open spec fn no_fave_record(v: RosterView) -> bool {
    forall|j: int| 0 <= j < v.records.len() ==> (#[trigger] v.records[j]).rec.id != FAVE_RECORD_ID
}

proof fn lemma_running_bounds(types: Seq<AssetTypeRec>, i: int)
    ensures
        0 <= running_first(types, i) <= i32::MAX,
    decreases i,
{
    if i > 0 {
        lemma_running_bounds(types, i - 1);
    }
}

proof fn lemma_running_mono(types: Seq<AssetTypeRec>, i: int, j: int)
    requires
        i <= j,
    ensures
        running_first(types, i) <= running_first(types, j),
    decreases j - i,
{
    if i < j {
        lemma_running_mono(types, i, j - 1);
        lemma_running_bounds(types, j - 1);
    }
}

/// Below a total that does not saturate, each run ends where the next starts.
proof fn lemma_running_step(types: Seq<AssetTypeRec>, t: int, total: int)
    requires
        0 <= t < total,
        running_first(types, total) < i32::MAX,
    ensures
        running_first(types, t + 1) == running_first(types, t) + nonneg(types[t].nbr_assets),
{
    lemma_running_mono(types, t + 1, total);
    lemma_running_bounds(types, t);
}

/// The running start depends only on the counts before it.
proof fn lemma_running_prefix(a: Seq<AssetTypeRec>, b: Seq<AssetTypeRec>, i: int)
    requires
        i <= a.len(),
        i <= b.len(),
        forall|k: int| 0 <= k < i ==> (#[trigger] a[k]).nbr_assets == b[k].nbr_assets,
    ensures
        running_first(a, i) == running_first(b, i),
    decreases i,
{
    if i > 0 {
        lemma_running_prefix(a, b, i - 1);
    }
}

proof fn lemma_first_of_kind_first(types: Seq<AssetTypeRec>, kind: AssetType, i: int, k: int)
    requires
        0 <= i <= k < types.len(),
        first_of_kind(types, kind, i) matches Some(f) ==> k < f,
    ensures
        kind_of(types[k]) != kind,
    decreases k - i,
{
    if i < k && kind_of(types[i]) != kind {
        lemma_first_of_kind_first(types, kind, i + 1, k);
    }
}

proof fn lemma_first_of_kind_found(types: Seq<AssetTypeRec>, kind: AssetType, i: int)
    ensures
        first_of_kind(types, kind, i) matches Some(f) ==> kind_of(types[f]) == kind,
    decreases types.len() - i,
{
    if 0 <= i < types.len() && kind_of(types[i]) != kind {
        lemma_first_of_kind_found(types, kind, i + 1);
    }
}

proof fn lemma_with_id_range(records: Seq<RecordView>, j: int, end: int, id: i32)
    requires
        j <= end,
    ensures
        j <= first_with_id(records, j, end, id) <= end,
    decreases end - j,
{
    if j < end && records[j].rec.id != id {
        lemma_with_id_range(records, j + 1, end, id);
    }
}

proof fn lemma_run_end_range(records: Seq<RecordView>, j: int, end: int, id: i32)
    requires
        j <= end,
    ensures
        j <= run_end(records, j, end, id) <= end,
    decreases end - j,
{
    if j < end && records[j].rec.id == id {
        lemma_run_end_range(records, j + 1, end, id);
    }
}

proof fn lemma_greater_range(records: Seq<RecordView>, j: int, end: int, id: i32)
    requires
        j <= end,
    ensures
        j <= first_greater(records, j, end, id) <= end,
    decreases end - j,
{
    if j < end && records[j].rec.id <= id {
        lemma_greater_range(records, j + 1, end, id);
    }
}

proof fn lemma_insert_point_range(records: Seq<RecordView>, start: int, end: int, id: i32)
    requires
        start <= end,
    ensures
        start <= insert_point(records, start, end, id) <= end,
{
    lemma_with_id_range(records, start, end, id);
    let f = first_with_id(records, start, end, id);
    if f < end {
        lemma_run_end_range(records, f, end, id);
    } else {
        lemma_greater_range(records, start, end, id);
    }
}

/// With no `Fave` id in `i..at` and one at `at`, the search finds `at`.
proof fn lemma_first_id_at(records: Seq<RecordView>, i: int, at: int, end: int)
    requires
        0 <= i <= at < end,
        at < records.len(),
        records[at].rec.id == FAVE_RECORD_ID,
        forall|j: int| i <= j < at ==> (#[trigger] records[j]).rec.id != FAVE_RECORD_ID,
    ensures
        first_id_in(records, FAVE_RECORD_ID, i, end) == Some(at),
    decreases at - i,
{
    if i < at {
        lemma_first_id_at(records, i + 1, at, end);
    }
}

proof fn lemma_first_id_none(records: Seq<RecordView>, i: int, end: int)
    requires
        forall|j: int| 0 <= j < records.len() ==> (#[trigger] records[j]).rec.id != FAVE_RECORD_ID,
    ensures
        first_id_in(records, FAVE_RECORD_ID, i, end) is None,
    decreases end - i,
{
    if !(i >= end || i < 0 || i >= records.len()) {
        lemma_first_id_none(records, i + 1, end);
    }
}

proof fn lemma_no_fave_in_types(v: RosterView, k: int)
    requires
        no_fave_record(v),
    ensures
        fave_in_types(v.types, v.records, k) is None,
    decreases v.types.len() - k,
{
    if 0 <= k < v.types.len() {
        let b = type_bounds(v.types[k], v.records.len() as int);
        lemma_first_id_none(v.records, b.0, b.1);
        lemma_no_fave_in_types(v, k + 1);
    }
}

proof fn lemma_no_loose_fave(v: RosterView, i: int)
    requires
        no_fave_record(v),
    ensures
        first_loose_fave(v.records, i) is None,
    decreases v.records.len() - i,
{
    if 0 <= i < v.records.len() {
        lemma_no_loose_fave(v, i + 1);
    }
}

/// Types before the first of a kind are skipped by the `Fave` search.
proof fn lemma_fave_search_skips(types: Seq<AssetTypeRec>, records: Seq<RecordView>, k: int, ti: int)
    requires
        0 <= k <= ti < types.len(),
        forall|m: int| k <= m < ti ==> kind_of(#[trigger] types[m]) != AssetType::Fave,
    ensures
        fave_in_types(types, records, k) == fave_in_types(types, records, ti),
    decreases ti - k,
{
    if k < ti {
        lemma_fave_search_skips(types, records, k + 1, ti);
    }
}

/// Where a `Fave` record goes in a tiled roster: the first `Fave` type, or
/// one appended after the others, whose run starts where the runs before it
/// end and fits inside the records.
proof fn lemma_fave_slot(v: RosterView)
    requires
        types_tile(v),
    ensures
        ({
            let n = v.records.len() as int;
            let tw = with_kind(v.types, AssetType::Fave, n).0;
            let ti = with_kind(v.types, AssetType::Fave, n).1;
            &&& 0 <= ti < tw.len()
            &&& kind_of(tw[ti]) == AssetType::Fave
            &&& forall|m: int| 0 <= m < ti ==> kind_of(#[trigger] tw[m]) != AssetType::Fave
            &&& tw[ti].first_asset as int == running_first(tw, ti)
            &&& 0 <= tw[ti].nbr_assets
            &&& 0 <= running_first(tw, ti)
            &&& running_first(tw, ti) + tw[ti].nbr_assets <= n
        }),
{
    let n = v.records.len() as int;
    let tw = with_kind(v.types, AssetType::Fave, n).0;
    let ti = with_kind(v.types, AssetType::Fave, n).1;
    crate::prp::mutate::lemma_first_of_kind_in_range(v.types, AssetType::Fave, 0);
    lemma_first_of_kind_found(v.types, AssetType::Fave, 0);
    lemma_running_bounds(tw, ti);
    match first_of_kind(v.types, AssetType::Fave, 0) {
        Some(f) => {
            assert(tw == v.types && ti == f);
            lemma_running_step(v.types, ti, v.types.len() as int);
            lemma_running_mono(v.types, ti + 1, v.types.len() as int);
            assert(v.types[ti].first_asset == running_first(v.types, ti));
            assert forall|m: int| 0 <= m < ti implies kind_of(#[trigger] tw[m]) != AssetType::Fave by {
                lemma_first_of_kind_first(v.types, AssetType::Fave, 0, m);
            }
        },
        None => {
            assert(ti == v.types.len());
            assert forall|k: int| 0 <= k < ti implies (#[trigger] tw[k]).nbr_assets
                == v.types[k].nbr_assets by {
                assert(tw[k] == v.types[k]);
            }
            lemma_running_prefix(tw, v.types, ti);
            assert(kind_of(tw[ti]) == AssetType::Fave);
            assert forall|m: int| 0 <= m < ti implies kind_of(#[trigger] tw[m]) != AssetType::Fave by {
                assert(tw[m] == v.types[m]);
                lemma_first_of_kind_first(v.types, AssetType::Fave, 0, m);
            }
        },
    }
}

/// A `Fave` record added to a tiled roster whose `Fave` runs hold no `Fave`
/// record is the one the next read finds.
proof fn lemma_added_fave_found(v: RosterView, payload: Seq<u8>, got: RosterView)
    requires
        types_tile(v),
        fave_in_types(v.types, v.records, 0) is None,
        finished_as(got, spec_add_typed(v, fave_record_view(payload), AssetType::Fave)),
    ensures
        spec_fave_index(got) matches Some(at) && 0 <= at < got.records.len()
            && got.records[at].blob == payload,
{
    let n = v.records.len() as int;
    let r = fave_record_view(payload);
    let tw = with_kind(v.types, AssetType::Fave, n).0;
    let ti = with_kind(v.types, AssetType::Fave, n).1;
    lemma_fave_slot(v);
    let ff = running_first(tw, ti);
    let nbr = tw[ti].nbr_assets as int;
    assert(insert_bounds(tw[ti], n) == (ff, ff + nbr));
    let at = insert_point(v.records, ff, ff + nbr, FAVE_RECORD_ID);
    lemma_insert_point_range(v.records, ff, ff + nbr, FAVE_RECORD_ID);
    if nbr > 0 {
        assert(tw == v.types);
        lemma_fave_search_skips(v.types, v.records, 0, ti);
        assert(type_bounds(v.types[ti], n) == (ff, ff + nbr));
        assert(first_id_in(v.records, FAVE_RECORD_ID, ff, ff + nbr) is None);
        lemma_first_id_none_range(v.records, ff, ff + nbr);
    }
    let t = tw[ti];
    let bumped = tw.update(
        ti,
        AssetTypeRec {
            asset_type: t.asset_type,
            nbr_assets: sat_add_i32(t.nbr_assets as int, 1) as i32,
            first_asset: t.first_asset,
        },
    );
    let ins = v.records.insert(at, r);
    let expected = spec_add_typed(v, r, AssetType::Fave);
    assert(expected.types == reindexed(bumped));
    assert(expected.records == Seq::new(
        (n + 1) as nat,
        |k: int| crate::prp::mutate::finished_record(ins, k),
    ));
    assert(got.types == expected.types && got.records == expected.records);
    let tt = got.types;
    let rr = got.records;
    lemma_running_prefix(bumped, tw, ti);
    assert(tt[ti].first_asset as int == ff);
    assert(tt[ti].nbr_assets as int == nbr + 1);
    assert(kind_of(tt[ti]) == AssetType::Fave);
    assert(type_bounds(tt[ti], n + 1) == (ff, ff + nbr + 1));
    assert(rr[at].rec.id == FAVE_RECORD_ID);
    assert(rr[at].blob == payload);
    assert forall|j: int| ff <= j < at implies (#[trigger] rr[j]).rec.id != FAVE_RECORD_ID by {
        assert(rr[j].rec.id == ins[j].rec.id);
        assert(ins[j] == v.records[j]);
    }
    lemma_first_id_at(rr, ff, at, ff + nbr + 1);
    assert(fave_in_types(tt, rr, ti) == Some(at));
    assert forall|m: int| 0 <= m < ti implies kind_of(#[trigger] tt[m]) != AssetType::Fave by {
        assert(tt[m].asset_type == tw[m].asset_type);
        assert(kind_of(tw[m]) != AssetType::Fave);
    }
    lemma_fave_search_skips(tt, rr, 0, ti);
    assert(spec_fave_index(got) == Some(at));
}

/// No `Fave` id lies in a range the search came back empty from.
proof fn lemma_first_id_none_range(records: Seq<RecordView>, i: int, end: int)
    requires
        0 <= i,
        end <= records.len(),
        first_id_in(records, FAVE_RECORD_ID, i, end) is None,
    ensures
        forall|j: int| i <= j < end ==> (#[trigger] records[j]).rec.id != FAVE_RECORD_ID,
    decreases end - i,
{
    if i < end {
        lemma_first_id_none_range(records, i + 1, end);
    }
}

proof fn lemma_first_id_found(records: Seq<RecordView>, i: int, end: int)
    ensures
        first_id_in(records, FAVE_RECORD_ID, i, end) matches Some(j) ==> 0 <= j < records.len()
            && records[j].rec.id == FAVE_RECORD_ID,
    decreases end - i,
{
    if !(i >= end || i < 0 || i >= records.len()) && records[i].rec.id != FAVE_RECORD_ID {
        lemma_first_id_found(records, i + 1, end);
    }
}

proof fn lemma_fave_in_types_found(types: Seq<AssetTypeRec>, records: Seq<RecordView>, k: int)
    ensures
        fave_in_types(types, records, k) matches Some(j) ==> 0 <= j < records.len()
            && records[j].rec.id == FAVE_RECORD_ID,
    decreases types.len() - k,
{
    if 0 <= k < types.len() {
        let b = type_bounds(types[k], records.len() as int);
        lemma_first_id_found(records, b.0, b.1);
        lemma_fave_in_types_found(types, records, k + 1);
    }
}

proof fn lemma_loose_found(records: Seq<RecordView>, i: int)
    ensures
        first_loose_fave(records, i) matches Some(j) ==> 0 <= j < records.len()
            && records[j].rec.id == FAVE_RECORD_ID,
    decreases records.len() - i,
{
    if 0 <= i < records.len() {
        lemma_loose_found(records, i + 1);
    }
}

/// The record the favourites read finds carries the `Fave` id.
proof fn lemma_fave_index_found(v: RosterView)
    ensures
        spec_fave_index(v) matches Some(j) ==> 0 <= j < v.records.len()
            && v.records[j].rec.id == FAVE_RECORD_ID,
{
    lemma_fave_in_types_found(v.types, v.records, 0);
    lemma_loose_found(v.records, 0);
}

proof fn lemma_key_index_matches(records: Seq<RecordView>, key: PropKey, i: int)
    ensures
        key_index(records, key, i) matches Some(j) ==> i <= j < records.len() && records[j].rec.id
            == key.id,
    decreases records.len() - i,
{
    if 0 <= i < records.len() && !(records[i].rec.id == key.id && records[i].rec.crc == key.crc) {
        lemma_key_index_matches(records, key, i + 1);
    }
}

/// In a tiled roster every record lies in some type's run.
proof fn lemma_holding_exists(v: RosterView, i: int, k: int)
    requires
        types_tile(v),
        0 <= i < v.records.len(),
        0 <= k <= v.types.len(),
        running_first(v.types, k) <= i,
    ensures
        type_holding(v.types, i, k) matches Some(h) && 0 <= h < v.types.len() && 1
            <= v.types[h].nbr_assets,
    decreases v.types.len() - k,
{
    if k < v.types.len() {
        lemma_running_step(v.types, k, v.types.len() as int);
        lemma_running_bounds(v.types, k);
        if !(nonneg(v.types[k].first_asset) <= i < nonneg(v.types[k].first_asset) + nonneg(
            v.types[k].nbr_assets,
        )) {
            lemma_holding_exists(v, i, k + 1);
        }
    }
}

/// Taking one record out of a run lowers every later start by one.
proof fn lemma_running_dec(a: Seq<AssetTypeRec>, b: Seq<AssetTypeRec>, h: int, k: int)
    requires
        0 <= h < a.len(),
        a.len() == b.len(),
        0 <= k <= a.len(),
        forall|t: int| 0 <= t < a.len() && t != h ==> (#[trigger] b[t]).nbr_assets == a[t].nbr_assets,
        forall|t: int| 0 <= t < a.len() ==> 0 <= (#[trigger] a[t]).nbr_assets,
        b[h].nbr_assets == a[h].nbr_assets - 1,
        1 <= a[h].nbr_assets,
        running_first(a, a.len() as int) < i32::MAX,
    ensures
        running_first(b, k) == running_first(a, k) - if k > h {
            1int
        } else {
            0int
        },
    decreases k,
{
    if k > 0 {
        lemma_running_dec(a, b, h, k - 1);
        lemma_running_step(a, k - 1, a.len() as int);
        lemma_running_bounds(a, k - 1);
        if k - 1 > h {
            lemma_running_step(a, h, a.len() as int);
            lemma_running_mono(a, h + 1, k - 1);
        }
        assert(0 <= b[k - 1].nbr_assets);
    }
}

/// Removing a record from a tiled roster leaves it tiled.
proof fn lemma_remove_keeps_tiling(v: RosterView, i: int)
    requires
        types_tile(v),
        0 <= i < v.records.len(),
    ensures
        types_tile(spec_remove_at(v, i)),
{
    lemma_holding_exists(v, i, 0);
    let h = type_holding(v.types, i, 0).unwrap();
    let tr = v.types.update(
        h,
        AssetTypeRec {
            asset_type: v.types[h].asset_type,
            nbr_assets: sat_add_i32(v.types[h].nbr_assets as int, -1) as i32,
            first_asset: v.types[h].first_asset,
        },
    );
    let w = spec_remove_at(v, i);
    assert(w.types == reindexed(tr));
    assert(w.records.len() == v.records.len() - 1);
    lemma_running_dec(v.types, tr, h, v.types.len() as int);
    assert forall|k: int| 0 <= k <= tr.len() implies running_first(#[trigger] reindexed(tr), k)
        == running_first(tr, k) by {
        lemma_running_prefix(reindexed(tr), tr, k);
    }
    assert forall|t: int| 0 <= t < w.types.len() implies 0 <= (#[trigger] w.types[t]).nbr_assets
        && w.types[t].first_asset == running_first(w.types, t) by {
        lemma_running_bounds(tr, t);
        assert(running_first(reindexed(tr), t) == running_first(tr, t));
    }
    assert(running_first(reindexed(tr), tr.len() as int) == running_first(tr, tr.len() as int));
}

/// At most one record carries the `Fave` id.
pub open spec fn one_fave_at_most(v: RosterView) -> bool {
    forall|j: int, k: int|
        0 <= j < v.records.len() && 0 <= k < v.records.len() && (#[trigger] v.records[j]).rec.id
            == FAVE_RECORD_ID && (#[trigger] v.records[k]).rec.id == FAVE_RECORD_ID ==> j == k
}

/// Writing a favourite list into a roster, then reading the roster's
/// favourites, gives the list back in order: for a roster whose type table
/// lays its records out back to back and which holds at most one `Fave`
/// record.
pub proof fn lemma_write_then_read(v: RosterView, keys: Seq<PropKey>, got: RosterView)
    requires
        types_tile(v),
        one_fave_at_most(v),
        distinct_keys(keys),
        applied(v, spec_encode_keys(keys), got),
    ensures
        spec_read_favorites(got) == keys,
{
    let payload = spec_encode_keys(keys);
    lemma_payload_round_trip(keys);
    crate::favorites_trash::lemma_encoded_specs(keys);
    lemma_fave_index_found(v);
    match spec_fave_index(v) {
        None => {
            if payload.len() == 0 {
                assert(keys =~= Seq::<PropKey>::empty());
            } else {
                lemma_added_fave_found(v, payload, got);
            }
        },
        Some(i) => {
            if v.records[i].blob != payload {
                let key = PropKey { id: v.records[i].rec.id, crc: v.records[i].rec.crc };
                crate::favorites_trash::lemma_key_index_found(v.records, key, i);
                lemma_key_index_matches(v.records, key, 0);
                let idx = key_index(v.records, key, 0).unwrap();
                assert(idx == i);
                let w = spec_remove_at(v, i);
                lemma_remove_keeps_tiling(v, i);
                let rm = v.records.remove(i);
                assert forall|j: int| 0 <= j < w.records.len() implies (#[trigger] w.records[j]).rec.id
                    != FAVE_RECORD_ID by {
                    assert(w.records[j].rec.id == rm[j].rec.id);
                    if j < i {
                        assert(rm[j] == v.records[j]);
                    } else {
                        assert(rm[j] == v.records[j + 1]);
                    }
                }
                lemma_no_fave_in_types(w, 0);
                lemma_added_fave_found(w, payload, got);
            }
        },
    }
}

} // verus!
