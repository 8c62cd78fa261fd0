//! The tolerant `.prp` reader: bytes in, [`Roster`] out.
//!
//! * the counts in the map header are trusted — the parser never scans past the
//!   declared map, so trailing garbage after the map is ignored;
//! * a record whose blob slice falls outside the data region is dropped and
//!   counted, not treated as fatal;
//! * a name whose entry is malformed simply does not resolve.
//!
//! A file too short to contain what its own header claims is an error.

use vstd::prelude::*;

use crate::codec::thirtytwo::slice_to_vec;
use crate::error::PropError;
use crate::text::{latin1_string, latin1_text};

use super::model::{
    AssetFileHeader, AssetMapHeader, AssetRec, AssetTypeRec, ASSET_REC_LEN, FILE_HEADER_LEN,
    MAP_HEADER_LEN, TYPE_REC_LEN,
};
use super::record::{spec_blob_encoding, spec_blob_header, PropHeader, PropRecord, RecordView};
use super::{Roster, RosterView};

verus! {

/// The little-endian `u32` at `at`.
pub open spec fn le_u32(b: Seq<u8>, at: int) -> u32 {
    (b[at] as int + b[at + 1] as int * 256 + b[at + 2] as int * 65536 + b[at + 3] as int
        * 16777216) as u32
}

/// The little-endian `i32` at `at`.
pub open spec fn le_i32(b: Seq<u8>, at: int) -> i32 {
    le_u32(b, at) as i32
}

/// The file header at the start of a `.prp` file.
pub open spec fn spec_file_header(buf: Seq<u8>) -> AssetFileHeader {
    AssetFileHeader {
        data_offset: le_u32(buf, 0),
        data_size: le_u32(buf, 4),
        asset_map_offset: le_u32(buf, 8),
        asset_map_size: le_u32(buf, 12),
    }
}

/// The map header at the start of the asset map.
pub open spec fn spec_map_header(region: Seq<u8>) -> AssetMapHeader {
    AssetMapHeader {
        nbr_types: le_i32(region, 0),
        nbr_assets: le_i32(region, 4),
        len_names: le_i32(region, 8),
        types_offset: le_u32(region, 12),
        recs_offset: le_u32(region, 16),
        names_offset: le_u32(region, 20),
    }
}

/// The type record at `at`.
pub open spec fn spec_type_rec(region: Seq<u8>, at: int) -> AssetTypeRec {
    AssetTypeRec {
        asset_type: le_i32(region, at),
        nbr_assets: le_i32(region, at + 4),
        first_asset: le_i32(region, at + 8),
    }
}

/// The asset record at `at`.
pub open spec fn spec_asset_rec(region: Seq<u8>, at: int) -> AssetRec {
    AssetRec {
        id: le_i32(region, at),
        r_handle: le_i32(region, at + 4),
        data_offset: le_u32(region, at + 8),
        data_size: le_u32(region, at + 12),
        last_use_time: le_i32(region, at + 16),
        name_offset: le_i32(region, at + 20),
        flags: le_u32(region, at + 24),
        crc: le_u32(region, at + 28),
    }
}

/// The names blob from `at` on: `[len:u8][latin-1 bytes]...`, each keyed by the
/// offset of its length byte. A malformed trailing entry ends the list.
pub open spec fn spec_names_from(region: Seq<u8>, at: int) -> Seq<(u32, Seq<char>)>
    decreases region.len() - at,
{
    if at < 0 || at >= region.len() {
        Seq::empty()
    } else {
        let end = at + 1 + region[at] as int;
        if end > region.len() {
            Seq::empty()
        } else {
            seq![(at as u32, latin1_text(region.subrange(at + 1, end)))] + spec_names_from(
                region,
                end,
            )
        }
    }
}

/// The first name stored at `offset`, if any.
pub open spec fn find_name(names: Seq<(u32, Seq<char>)>, offset: u32) -> Option<Seq<char>>
    decreases names.len(),
{
    if names.len() == 0 {
        None
    } else if names[0].0 == offset {
        Some(names[0].1)
    } else {
        find_name(names.drop_first(), offset)
    }
}

/// The name a record resolves through its `name_offset`.
pub open spec fn spec_record_name(names: Seq<(u32, Seq<char>)>, rec: AssetRec) -> Option<Seq<char>> {
    if rec.name_offset >= 0 {
        find_name(names, rec.name_offset as u32)
    } else {
        None
    }
}

/// Record `i`, or `None` when its blob falls outside the data region.
pub open spec fn spec_record(
    buf: Seq<u8>,
    recs: Seq<u8>,
    i: int,
    names: Seq<(u32, Seq<char>)>,
    region_base: int,
    map_start: int,
) -> Option<RecordView> {
    let rec = spec_asset_rec(recs, i * ASSET_REC_LEN);
    let start = region_base + rec.data_offset as int;
    let end = start + rec.data_size as int;
    if start > usize::MAX || end > usize::MAX || end > map_start {
        None
    } else {
        let blob = buf.subrange(start, end);
        Some(
            RecordView {
                rec,
                header: spec_blob_header(blob),
                encoding: spec_blob_encoding(blob),
                blob,
                name: spec_record_name(names, rec),
            },
        )
    }
}

/// The first `n` records that survive, and how many were dropped.
pub open spec fn spec_records(
    buf: Seq<u8>,
    recs: Seq<u8>,
    n: int,
    names: Seq<(u32, Seq<char>)>,
    region_base: int,
    map_start: int,
) -> (Seq<RecordView>, nat)
    decreases n,
{
    if n <= 0 {
        (Seq::empty(), 0)
    } else {
        let (rs, dropped) = spec_records(buf, recs, n - 1, names, region_base, map_start);
        match spec_record(buf, recs, n - 1, names, region_base, map_start) {
            Some(r) => (rs.push(r), dropped),
            None => (rs, dropped + 1),
        }
    }
}

/// Whether `[offset, offset + len)` lies inside `region` without overflow.
pub open spec fn section_ok(region_len: int, offset: int, len: int) -> bool {
    offset + len <= usize::MAX && offset + len <= region_len
}

/// What [`Roster::parse`] produces for `buf`, or `None` when the file is
/// shorter than its headers claim or its map contradicts itself.
pub open spec fn spec_parse_roster(buf: Seq<u8>) -> Option<RosterView> {
    if buf.len() < FILE_HEADER_LEN {
        None
    } else {
        let file = spec_file_header(buf);
        let map_start = file.asset_map_offset as int;
        let map_end = map_start + file.asset_map_size as int;
        if map_end > usize::MAX || map_end > buf.len() {
            None
        } else {
            let region = buf.subrange(map_start, map_end);
            if region.len() < MAP_HEADER_LEN {
                None
            } else {
                let map = spec_map_header(region);
                let types_bytes = map.nbr_types as int * TYPE_REC_LEN;
                let recs_bytes = map.nbr_assets as int * ASSET_REC_LEN;
                if map.nbr_types < 0 || map.nbr_assets < 0 || map.len_names < 0 {
                    None
                } else if types_bytes > usize::MAX || recs_bytes > usize::MAX {
                    None
                } else if !section_ok(region.len() as int, map.types_offset as int, types_bytes)
                    || !section_ok(region.len() as int, map.recs_offset as int, recs_bytes)
                    || !section_ok(
                    region.len() as int,
                    map.names_offset as int,
                    map.len_names as int,
                ) {
                    None
                } else {
                    let types_region = region.subrange(
                        map.types_offset as int,
                        map.types_offset as int + types_bytes,
                    );
                    let recs_region = region.subrange(
                        map.recs_offset as int,
                        map.recs_offset as int + recs_bytes,
                    );
                    let names_region = region.subrange(
                        map.names_offset as int,
                        map.names_offset as int + map.len_names as int,
                    );
                    let names = spec_names_from(names_region, 0);
                    let region_base = file.data_offset as int;
                    let (records, dropped) = spec_records(
                        buf,
                        recs_region,
                        map.nbr_assets as int,
                        names,
                        region_base,
                        map_start,
                    );
                    Some(
                        RosterView {
                            file,
                            map,
                            types: Seq::new(
                                map.nbr_types as nat,
                                |i: int| spec_type_rec(types_region, i * TYPE_REC_LEN),
                            ),
                            records,
                            names,
                            data: if region_base <= map_start {
                                buf.subrange(region_base, map_start)
                            } else {
                                Seq::empty()
                            },
                            dropped,
                        },
                    )
                }
            }
        }
    }
}


/// What [`spec_parse_roster`] gives when every check passes, assembled from
/// the parts it reads.
pub proof fn lemma_parse_roster_parts(
    buf: Seq<u8>,
    types: Seq<AssetTypeRec>,
    records: Seq<RecordView>,
    names: Seq<(u32, Seq<char>)>,
)
    requires
        buf.len() >= FILE_HEADER_LEN,
        ({
            let file = spec_file_header(buf);
            let map_start = file.asset_map_offset as int;
            let map_end = map_start + file.asset_map_size as int;
            let region = buf.subrange(map_start, map_end);
            let map = spec_map_header(region);
            let types_bytes = map.nbr_types as int * TYPE_REC_LEN;
            let recs_bytes = map.nbr_assets as int * ASSET_REC_LEN;
            &&& map_end <= usize::MAX
            &&& map_end <= buf.len()
            &&& region.len() >= MAP_HEADER_LEN
            &&& map.nbr_types >= 0
            &&& map.nbr_assets >= 0
            &&& map.len_names >= 0
            &&& types_bytes <= usize::MAX
            &&& recs_bytes <= usize::MAX
            &&& section_ok(region.len() as int, map.types_offset as int, types_bytes)
            &&& section_ok(region.len() as int, map.recs_offset as int, recs_bytes)
            &&& section_ok(region.len() as int, map.names_offset as int, map.len_names as int)
            &&& types.len() == map.nbr_types
            &&& forall|i: int|
                0 <= i < types.len() ==> spec_type_rec(
                    region.subrange(map.types_offset as int, map.types_offset as int + types_bytes),
                    i * TYPE_REC_LEN,
                ) == #[trigger] types[i]
            &&& spec_names_from(
                region.subrange(map.names_offset as int, map.names_offset as int + map.len_names as int),
                0,
            ) == names
            &&& spec_records(
                buf,
                region.subrange(map.recs_offset as int, map.recs_offset as int + recs_bytes),
                map.nbr_assets as int,
                names,
                file.data_offset as int,
                map_start,
            ) == (records, 0nat)
            &&& file.data_offset as int <= map_start
        }),
    ensures
        spec_parse_roster(buf) == Some(
            RosterView {
                file: spec_file_header(buf),
                map: spec_map_header(
                    buf.subrange(
                        spec_file_header(buf).asset_map_offset as int,
                        spec_file_header(buf).asset_map_offset as int + spec_file_header(
                            buf,
                        ).asset_map_size as int,
                    ),
                ),
                types,
                records,
                names,
                data: buf.subrange(
                    spec_file_header(buf).data_offset as int,
                    spec_file_header(buf).asset_map_offset as int,
                ),
                dropped: 0,
            },
        ),
{
    let v = spec_parse_roster(buf).unwrap();
    assert(v.types =~= types);
}

/// Read a little-endian `u32`.
pub fn word_u32(buf: &[u8], at: usize) -> (r: u32)
    requires
        at + 4 <= buf@.len(),
    ensures
        r == le_u32(buf@, at as int),
{
    (buf[at] as u32) + (buf[at + 1] as u32) * 256 + (buf[at + 2] as u32) * 65536 + (buf[at
        + 3] as u32) * 16777216
}

/// Read a little-endian `i32`.
pub fn word_i32(buf: &[u8], at: usize) -> (r: i32)
    requires
        at + 4 <= buf@.len(),
    ensures
        r == le_i32(buf@, at as int),
{
    word_u32(buf, at) as i32
}

/// The view of a names list.
pub open spec fn names_view(names: Seq<(u32, String)>) -> Seq<(u32, Seq<char>)> {
    Seq::new(names.len(), |i: int| (names[i].0, names[i].1@))
}

/// The views of a list of records.
pub open spec fn records_view(records: Seq<PropRecord>) -> Seq<RecordView> {
    Seq::new(records.len(), |i: int| records[i]@)
}

/// Offsets strictly increase along a names list.
pub open spec fn offsets_increasing(names: Seq<(u32, Seq<char>)>) -> bool {
    forall|i: int, j: int| 0 <= i < j < names.len() ==> names[i].0 < names[j].0
}

/// Every offset in a names list is at least `low`.
pub open spec fn offsets_from(names: Seq<(u32, Seq<char>)>, low: int) -> bool {
    forall|i: int| 0 <= i < names.len() ==> names[i].0 >= low
}

/// The names parsed from `at` on start at `at` or later and increase.
pub proof fn lemma_names_increasing(region: Seq<u8>, at: int)
    requires
        region.len() <= u32::MAX,
    ensures
        offsets_increasing(spec_names_from(region, at)),
        offsets_from(spec_names_from(region, at), at),
    decreases region.len() - at,
{
    if at < 0 || at >= region.len() {
    } else {
        let end = at + 1 + region[at] as int;
        if end <= region.len() {
            lemma_names_increasing(region, end);
            let rest = spec_names_from(region, end);
            let all = spec_names_from(region, at);
            assert(all == seq![(at as u32, latin1_text(region.subrange(at + 1, end)))] + rest);
            assert forall|i: int, j: int| 0 <= i < j < all.len() implies all[i].0 < all[j].0 by {
                if i > 0 {
                    assert(all[i] == rest[i - 1]);
                }
                assert(all[j] == rest[j - 1]);
            }
            assert forall|i: int| 0 <= i < all.len() implies all[i].0 >= at by {
                if i > 0 {
                    assert(all[i] == rest[i - 1]);
                }
            }
        }
    }
}

/// In a list whose offsets increase, the name found for an offset is the one
/// at the unique index holding it.
pub proof fn lemma_find_name_index(names: Seq<(u32, Seq<char>)>, offset: u32)
    requires
        offsets_increasing(names),
    ensures
        (exists|k: int| 0 <= k < names.len() && names[k].0 == offset) ==> find_name(names, offset)
            == Some(names[choose|k: int| 0 <= k < names.len() && names[k].0 == offset].1),
        (forall|k: int| 0 <= k < names.len() ==> names[k].0 != offset) ==> find_name(names, offset)
            is None,
    decreases names.len(),
{
    if names.len() > 0 {
        let rest = names.drop_first();
        assert(offsets_increasing(rest)) by {
            assert forall|i: int, j: int| 0 <= i < j < rest.len() implies rest[i].0 < rest[j].0 by {
                assert(rest[i] == names[i + 1]);
                assert(rest[j] == names[j + 1]);
            }
        }
        lemma_find_name_index(rest, offset);
        if exists|k: int| 0 <= k < names.len() && names[k].0 == offset {
            let k = choose|k: int| 0 <= k < names.len() && names[k].0 == offset;
            if names[0].0 == offset {
                assert(k == 0);
            } else {
                assert(k > 0);
                assert(rest[k - 1] == names[k]);
                assert(exists|m: int| 0 <= m < rest.len() && rest[m].0 == offset);
                let m = choose|m: int| 0 <= m < rest.len() && rest[m].0 == offset;
                assert(names[m + 1].0 == offset);
                assert(m + 1 == k);
            }
        } else {
            assert forall|m: int| 0 <= m < rest.len() implies rest[m].0 != offset by {
                assert(rest[m] == names[m + 1]);
            }
        }
    }
}

/// Parse the names blob.
fn parse_names(region: &[u8]) -> (r: Vec<(u32, String)>)
    requires
        region@.len() <= u32::MAX,
    ensures
        names_view(r@) == spec_names_from(region@, 0),
{
    let mut names: Vec<(u32, String)> = Vec::new();
    let mut at: usize = 0;
    let len = region.len();
    while at < len
        invariant
            len == region@.len(),
            len <= u32::MAX,
            at <= len,
            names_view(names@) + spec_names_from(region@, at as int) == spec_names_from(
                region@,
                0,
            ),
        decreases len - at,
    {
        let n = region[at] as usize;
        let start = at + 1;
        if n > len - start {
            assert(spec_names_from(region@, at as int) == Seq::<(u32, Seq<char>)>::empty());
            assert(spec_names_from(region@, len as int) == Seq::<(u32, Seq<char>)>::empty());
            at = len;
            continue;
        }
        let end = start + n;
        let name = latin1_string(&region[start..end]);
        let ghost before = names_view(names@);
        names.push((at as u32, name));
        proof {
            assert(names_view(names@) =~= before.push(
                (at as u32, latin1_text(region@.subrange(start as int, end as int))),
            ));
            assert(spec_names_from(region@, at as int) == seq![
                (at as u32, latin1_text(region@.subrange(start as int, end as int))),
            ] + spec_names_from(region@, end as int));
            assert(names_view(names@) + spec_names_from(region@, end as int) =~= before
                + spec_names_from(region@, at as int));
        }
        at = end;
    }
    proof {
        assert(spec_names_from(region@, at as int) == Seq::<(u32, Seq<char>)>::empty());
        assert(names_view(names@) + Seq::<(u32, Seq<char>)>::empty() =~= names_view(names@));
    }
    names
}

/// Find the name stored at `offset` by binary search over increasing offsets.
fn lookup_name(names: &Vec<(u32, String)>, offset: u32) -> (r: Option<String>)
    requires
        offsets_increasing(names_view(names@)),
    ensures
        opt_view(r) == find_name(names_view(names@), offset),
{
    let ghost nv = names_view(names@);
    let mut lo: usize = 0;
    let mut hi: usize = names.len();
    while lo < hi
        invariant
            hi <= names@.len(),
            lo <= hi,
            nv == names_view(names@),
            offsets_increasing(nv),
            forall|k: int| 0 <= k < lo ==> nv[k].0 < offset,
            forall|k: int| hi <= k < nv.len() ==> nv[k].0 > offset,
        decreases hi - lo,
    {
        let mid = lo + (hi - lo) / 2;
        let found = names[mid].0;
        assert(found == nv[mid as int].0);
        if found == offset {
            proof {
                lemma_find_name_index(nv, offset);
                assert(nv[mid as int].0 == offset);
                let k = choose|k: int| 0 <= k < nv.len() && nv[k].0 == offset;
                if k != mid {
                    if k < mid {
                        assert(nv[k].0 < nv[mid as int].0);
                    } else {
                        assert(nv[mid as int].0 < nv[k].0);
                    }
                }
            }
            return Some(names[mid].1.clone());
        } else if found < offset {
            assert forall|k: int| 0 <= k < mid + 1 implies nv[k].0 < offset by {
                if k < mid {
                    assert(nv[k].0 < nv[mid as int].0);
                }
            }
            lo = mid + 1;
        } else {
            assert forall|k: int| mid <= k < nv.len() implies nv[k].0 > offset by {
                if k > mid {
                    assert(nv[mid as int].0 < nv[k].0);
                }
            }
            hi = mid;
        }
    }
    proof {
        lemma_find_name_index(nv, offset);
    }
    None
}

/// The view of an optional string.
pub open spec fn opt_view(s: Option<String>) -> Option<Seq<char>> {
    match s {
        Some(s) => Some(s@),
        None => None,
    }
}

/// Parse a complete `.prp` file.
pub fn parse(buf: &[u8]) -> (r: Result<Roster, PropError>)
    ensures
        match spec_parse_roster(buf@) {
            Some(v) => r matches Ok(ro) && ro@ == v,
            None => if buf@.len() < FILE_HEADER_LEN {
                r == Err::<Roster, PropError>(
                    PropError::HeaderTooShort { available: buf@.len() as usize },
                )
            } else {
                r matches Err(PropError::BagIo { .. })
            },
        },
{
    let len = buf.len();
    if len < FILE_HEADER_LEN {
        return Err(PropError::HeaderTooShort { available: len });
    }
    let file = AssetFileHeader {
        data_offset: word_u32(buf, 0),
        data_size: word_u32(buf, 4),
        asset_map_offset: word_u32(buf, 8),
        asset_map_size: word_u32(buf, 12),
    };
    let map_start = file.asset_map_offset as usize;
    let map_end = match map_start.checked_add(file.asset_map_size as usize) {
        Some(e) => e,
        None => {
            return Err(inconsistent("asset_map_offset + asset_map_size overflows"));
        },
    };
    if map_end > len {
        return Err(inconsistent("the file is shorter than its asset map"));
    }
    let region = &buf[map_start..map_end];
    if region.len() < MAP_HEADER_LEN {
        return Err(inconsistent("asset map is smaller than its own header"));
    }
    let map = AssetMapHeader {
        nbr_types: word_i32(region, 0),
        nbr_assets: word_i32(region, 4),
        len_names: word_i32(region, 8),
        types_offset: word_u32(region, 12),
        recs_offset: word_u32(region, 16),
        names_offset: word_u32(region, 20),
    };
    if map.nbr_types < 0 || map.nbr_assets < 0 || map.len_names < 0 {
        return Err(inconsistent("a map header count is negative"));
    }
    let nbr_types = map.nbr_types as usize;
    let nbr_assets = map.nbr_assets as usize;
    let types_bytes = match nbr_types.checked_mul(TYPE_REC_LEN) {
        Some(b) => b,
        None => {
            return Err(inconsistent("type count overflows"));
        },
    };
    let recs_bytes = match nbr_assets.checked_mul(ASSET_REC_LEN) {
        Some(b) => b,
        None => {
            return Err(inconsistent("record count overflows"));
        },
    };
    let types_off = map.types_offset as usize;
    let recs_off = map.recs_offset as usize;
    let names_off = map.names_offset as usize;
    let rlen = region.len();
    let types_end = match types_off.checked_add(types_bytes) {
        Some(e) if e <= rlen => e,
        _ => {
            return Err(inconsistent("type table overruns the declared map"));
        },
    };
    let recs_end = match recs_off.checked_add(recs_bytes) {
        Some(e) if e <= rlen => e,
        _ => {
            return Err(inconsistent("record table overruns the declared map"));
        },
    };
    let names_end = match names_off.checked_add(map.len_names as usize) {
        Some(e) if e <= rlen => e,
        _ => {
            return Err(inconsistent("names blob overruns the declared map"));
        },
    };
    let types_region = &region[types_off..types_end];
    let recs_region = &region[recs_off..recs_end];
    let names_region = &region[names_off..names_end];

    let mut types: Vec<AssetTypeRec> = Vec::new();
    let mut t: usize = 0;
    let tlen = types_region.len();
    while t < nbr_types
        invariant
            tlen == types_region@.len(),
            t <= nbr_types,
            types_region@.len() == nbr_types * TYPE_REC_LEN,
            types@.len() == t,
            forall|j: int| 0 <= j < t ==> types@[j] == spec_type_rec(types_region@, j * 12),
        decreases nbr_types - t,
    {
        let at = t * TYPE_REC_LEN;
        types.push(
            AssetTypeRec {
                asset_type: word_i32(types_region, at),
                nbr_assets: word_i32(types_region, at + 4),
                first_asset: word_i32(types_region, at + 8),
            },
        );
        t = t + 1;
    }

    let names = parse_names(names_region);
    proof {
        lemma_names_increasing(names_region@, 0);
    }
    let ghost nv = names_view(names@);
    let region_base = file.data_offset as usize;
    let mut records: Vec<PropRecord> = Vec::new();
    let mut dropped: usize = 0;
    let mut i: usize = 0;
    let rrlen = recs_region.len();
    while i < nbr_assets
        invariant
            rrlen == recs_region@.len(),
            i <= nbr_assets,
            len == buf@.len(),
            map_end <= len,
            map_start <= map_end,
            recs_region@.len() == nbr_assets * ASSET_REC_LEN,
            nv == names_view(names@),
            offsets_increasing(nv),
            dropped <= i,
            spec_records(buf@, recs_region@, i as int, nv, region_base as int, map_start as int)
                == (records_view(records@), dropped as nat),
        decreases nbr_assets - i,
    {
        let ghost before = records_view(records@);
        match read_record(buf, recs_region, i, &names, region_base, map_start) {
            Some(record) => {
                records.push(record);
                assert(records_view(records@) =~= before.push(record@));
            },
            None => {
                dropped = dropped + 1;
            },
        }
        i = i + 1;
    }
    let data = if region_base <= map_start {
        slice_to_vec(&buf[region_base..map_start])
    } else {
        Vec::new()
    };
    let ro = Roster { file, map, types, records, names, data, dropped };
    proof {
        let types_view = Seq::new(
            map.nbr_types as nat,
            |k: int| spec_type_rec(types_region@, k * TYPE_REC_LEN),
        );
        assert(types@ =~= types_view);
        assert(data@ =~= (if region_base <= map_start {
            buf@.subrange(region_base as int, map_start as int)
        } else {
            Seq::empty()
        }));
    }
    Ok(ro)
}

/// Read record `i`, or `None` when its blob falls outside the data region.
fn read_record(
    buf: &[u8],
    recs_region: &[u8],
    i: usize,
    names: &Vec<(u32, String)>,
    region_base: usize,
    map_start: usize,
) -> (r: Option<PropRecord>)
    requires
        (i + 1) * ASSET_REC_LEN <= recs_region@.len(),
        map_start <= buf@.len(),
        offsets_increasing(names_view(names@)),
    ensures
        match spec_record(
            buf@,
            recs_region@,
            i as int,
            names_view(names@),
            region_base as int,
            map_start as int,
        ) {
            Some(v) => r matches Some(rec) && rec@ == v,
            None => r is None,
        },
{
    let _rlen = recs_region.len();
    let at = i * ASSET_REC_LEN;
    let rec = AssetRec {
        id: word_i32(recs_region, at),
        r_handle: word_i32(recs_region, at + 4),
        data_offset: word_u32(recs_region, at + 8),
        data_size: word_u32(recs_region, at + 12),
        last_use_time: word_i32(recs_region, at + 16),
        name_offset: word_i32(recs_region, at + 20),
        flags: word_u32(recs_region, at + 24),
        crc: word_u32(recs_region, at + 28),
    };
    assert(rec == spec_asset_rec(recs_region@, i * ASSET_REC_LEN));
    let s = match region_base.checked_add(rec.data_offset as usize) {
        Some(s) => s,
        None => {
            return None;
        },
    };
    let e = match s.checked_add(rec.data_size as usize) {
        Some(e) => e,
        None => {
            return None;
        },
    };
    if e > map_start {
        return None;
    }
    let blob = slice_to_vec(&buf[s..e]);
    let name = if rec.name_offset >= 0 {
        lookup_name(names, rec.name_offset as u32)
    } else {
        None
    };
    let header = match PropHeader::parse(blob.as_slice()) {
        Ok(h) => Some(h),
        Err(_) => None,
    };
    let encoding = match header {
        Some(h) => Some(h.encoding()),
        None => None,
    };
    Some(PropRecord { rec, header, encoding, blob, name })
}

/// A map that contradicts itself, or a file shorter than its own header
/// claims. Reported as `BagIo` with a detail naming the problem.
fn inconsistent(detail: &str) -> (r: PropError)
    ensures
        r matches PropError::BagIo { .. },
{
    let mut text = String::from_str(".prp map is inconsistent: ");
    text.append(detail);
    PropError::BagIo { detail: text }
}

} // verus!
