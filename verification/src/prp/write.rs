//! The `.prp` writer: model in, bytes out.
//!
//! [`serialize`] rebuilds the container in the format's order: the 16-byte file
//! header, the data region, then the asset map (map header, type records,
//! 32-byte records, names blob). It is a *literal* serialiser:
//!
//! * `dataOffset` is always 16 and `dataSize` is the stored data region's length,
//!   so `assetMapOffset = 16 + dataSize`;
//! * the data region is emitted verbatim, gaps between blobs included;
//! * every record field is emitted unchanged, `crc` included;
//! * names are re-encoded latin-1, the inverse of the reader.

use vstd::prelude::*;

use crate::error::PropError;
use crate::text::{latin1_bytes, latin1_encode};

use super::model::{AssetRec, AssetTypeRec, FILE_HEADER_LEN, MAP_HEADER_LEN};
use super::record::{RecordView, MAX_NAME_LEN};
use super::{Roster, RosterView};

verus! {

/// The four little-endian bytes of a `u32`.
pub open spec fn u32_le(v: u32) -> Seq<u8> {
    seq![(v % 256) as u8, ((v / 256) % 256) as u8, ((v / 65536) % 256) as u8, (v / 16777216) as u8]
}

/// The four little-endian bytes of an `i32`.
pub open spec fn i32_le(v: i32) -> Seq<u8> {
    u32_le(v as u32)
}

/// The 12 stored bytes of a type record.
pub open spec fn type_rec_bytes(t: AssetTypeRec) -> Seq<u8> {
    i32_le(t.asset_type) + i32_le(t.nbr_assets) + i32_le(t.first_asset)
}

/// The 32 stored bytes of an asset record.
pub open spec fn asset_rec_bytes(r: AssetRec) -> Seq<u8> {
    i32_le(r.id) + i32_le(r.r_handle) + u32_le(r.data_offset) + u32_le(r.data_size) + i32_le(
        r.last_use_time,
    ) + i32_le(r.name_offset) + u32_le(r.flags) + u32_le(r.crc)
}

/// The type table, in order.
pub open spec fn types_bytes(ts: Seq<AssetTypeRec>) -> Seq<u8>
    decreases ts.len(),
{
    if ts.len() == 0 {
        Seq::empty()
    } else {
        types_bytes(ts.drop_last()) + type_rec_bytes(ts.last())
    }
}

/// The record table, in order.
pub open spec fn recs_bytes(rs: Seq<RecordView>) -> Seq<u8>
    decreases rs.len(),
{
    if rs.len() == 0 {
        Seq::empty()
    } else {
        recs_bytes(rs.drop_last()) + asset_rec_bytes(rs.last().rec)
    }
}

/// How many latin-1 bytes of a name are stored: at most 255.
pub open spec fn stored_name_len(name: Seq<char>) -> int {
    if name.len() < MAX_NAME_LEN {
        name.len() as int
    } else {
        MAX_NAME_LEN as int
    }
}

/// One names-blob entry: a length byte and the latin-1 bytes.
pub open spec fn name_entry(name: Seq<char>) -> Seq<u8> {
    seq![stored_name_len(name) as u8] + latin1_encode(name).subrange(0, stored_name_len(name))
}

/// The names blob, entries in stored order.
pub open spec fn names_blob(names: Seq<(u32, Seq<char>)>) -> Seq<u8>
    decreases names.len(),
{
    if names.len() == 0 {
        Seq::empty()
    } else {
        names_blob(names.drop_last()) + name_entry(names.last().1)
    }
}

/// Map-relative offset of the record table.
pub open spec fn recs_offset_of(v: RosterView) -> int {
    MAP_HEADER_LEN + 12 * v.types.len()
}

/// Map-relative offset of the names blob.
pub open spec fn names_offset_of(v: RosterView) -> int {
    recs_offset_of(v) + 32 * v.records.len()
}

/// Length of the asset map.
pub open spec fn map_size_of(v: RosterView) -> int {
    names_offset_of(v) + names_blob(v.names).len()
}

/// Whether the written file's offsets can be computed in `usize`.
pub open spec fn layout_fits(v: RosterView) -> bool {
    FILE_HEADER_LEN + v.data.len() + map_size_of(v) <= usize::MAX
}

/// The bytes [`Roster::write`] produces for a roster.
pub open spec fn spec_serialize(v: RosterView) -> Seq<u8> {
    let blob = names_blob(v.names);
    file_header_bytes(v.data.len() as int, map_size_of(v)) + v.data + map_header_bytes(
        v.types.len() as int,
        v.records.len() as int,
        blob.len() as int,
        recs_offset_of(v),
        names_offset_of(v),
    ) + types_bytes(v.types) + recs_bytes(v.records) + blob
}

/// The type table is twelve bytes per type.
pub proof fn lemma_types_bytes_len(ts: Seq<AssetTypeRec>)
    ensures
        types_bytes(ts).len() == 12 * ts.len(),
    decreases ts.len(),
{
    if ts.len() > 0 {
        lemma_types_bytes_len(ts.drop_last());
    }
}

/// The record table is thirty-two bytes per record.
pub proof fn lemma_recs_bytes_len(rs: Seq<RecordView>)
    ensures
        recs_bytes(rs).len() == 32 * rs.len(),
    decreases rs.len(),
{
    if rs.len() > 0 {
        lemma_recs_bytes_len(rs.drop_last());
    }
}

/// Append the little-endian bytes of a `u32`.
pub fn put_u32(out: &mut Vec<u8>, v: u32)
    ensures
        final(out)@ == old(out)@ + u32_le(v),
{
    out.push((v % 256) as u8);
    out.push(((v / 256) % 256) as u8);
    out.push(((v / 65536) % 256) as u8);
    out.push((v / 16777216) as u8);
    assert(out@ =~= old(out)@ + u32_le(v));
}

/// Append the little-endian bytes of an `i32`.
pub fn put_i32(out: &mut Vec<u8>, v: i32)
    ensures
        final(out)@ == old(out)@ + i32_le(v),
{
    put_u32(out, v as u32);
}

/// Append a run of bytes.
pub fn put_bytes(out: &mut Vec<u8>, src: &[u8])
    ensures
        final(out)@ == old(out)@ + src@,
{
    let n = src.len();
    let mut i: usize = 0;
    while i < n
        invariant
            n == src@.len(),
            i <= n,
            out@ == old(out)@ + src@.subrange(0, i as int),
        decreases n - i,
    {
        out.push(src[i]);
        i = i + 1;
        assert(out@ =~= old(out)@ + src@.subrange(0, i as int));
    }
    assert(src@.subrange(0, n as int) =~= src@);
}

/// Encode the names blob in stored order: `[len:u8][latin-1 bytes]...`.
fn encode_names(names: &Vec<(u32, String)>) -> (r: Vec<u8>)
    ensures
        r@ == names_blob(super::read::names_view(names@)),
{
    let ghost nv = super::read::names_view(names@);
    let mut blob: Vec<u8> = Vec::new();
    let mut i: usize = 0;
    while i < names.len()
        invariant
            i <= names@.len(),
            nv == super::read::names_view(names@),
            blob@ == names_blob(nv.subrange(0, i as int)),
        decreases names@.len() - i,
    {
        let bytes = latin1_bytes(names[i].1.as_str());
        let k = if bytes.len() < MAX_NAME_LEN {
            bytes.len()
        } else {
            MAX_NAME_LEN
        };
        blob.push(k as u8);
        put_bytes(&mut blob, &bytes.as_slice()[0..k]);
        proof {
            let prefix = nv.subrange(0, i as int + 1);
            assert(prefix.drop_last() =~= nv.subrange(0, i as int));
            assert(prefix.last() == nv[i as int]);
            assert(nv[i as int].1 == names@[i as int].1@);
            assert(blob@ =~= names_blob(nv.subrange(0, i as int)) + name_entry(nv[i as int].1));
        }
        i = i + 1;
    }
    assert(nv.subrange(0, i as int) =~= nv);
    blob
}

/// The file header for a data region and an asset map of these sizes.
pub open spec fn file_header_bytes(data_size: int, map_size: int) -> Seq<u8> {
    u32_le(FILE_HEADER_LEN as u32) + u32_le(data_size as u32) + u32_le(
        (FILE_HEADER_LEN + data_size) as u32,
    ) + u32_le(map_size as u32)
}

/// The map header for these counts and offsets.
pub open spec fn map_header_bytes(
    nbr_types: int,
    nbr_assets: int,
    len_names: int,
    recs_offset: int,
    names_offset: int,
) -> Seq<u8> {
    i32_le(nbr_types as i32) + i32_le(nbr_assets as i32) + i32_le(len_names as i32) + u32_le(
        MAP_HEADER_LEN as u32,
    ) + u32_le(recs_offset as u32) + u32_le(names_offset as u32)
}

/// The written file is the concatenation of its six parts.
proof fn lemma_serialize_parts(
    v: RosterView,
    map_size: int,
    len_names: int,
    recs_offset: int,
    names_offset: int,
)
    requires
        len_names == names_blob(v.names).len(),
        recs_offset == recs_offset_of(v),
        names_offset == names_offset_of(v),
        map_size == names_offset + len_names,
    ensures
        spec_serialize(v) == file_header_bytes(v.data.len() as int, map_size) + v.data
            + map_header_bytes(
            v.types.len() as int,
            v.records.len() as int,
            len_names,
            recs_offset,
            names_offset,
        ) + types_bytes(v.types) + recs_bytes(v.records) + names_blob(v.names),
{
}

/// Append the file header.
fn put_file_header(out: &mut Vec<u8>, data_size: usize, map_size: usize)
    requires
        data_size + FILE_HEADER_LEN <= usize::MAX,
    ensures
        final(out)@ == old(out)@ + file_header_bytes(data_size as int, map_size as int),
{
    put_u32(out, FILE_HEADER_LEN as u32);
    put_u32(out, data_size as u32);
    put_u32(out, (data_size + FILE_HEADER_LEN) as u32);
    put_u32(out, map_size as u32);
    assert(out@ =~= old(out)@ + file_header_bytes(data_size as int, map_size as int));
}

/// Append the map header.
fn put_map_header(
    out: &mut Vec<u8>,
    nbr_types: usize,
    nbr_assets: usize,
    len_names: usize,
    recs_offset: usize,
    names_offset: usize,
)
    ensures
        final(out)@ == old(out)@ + map_header_bytes(
            nbr_types as int,
            nbr_assets as int,
            len_names as int,
            recs_offset as int,
            names_offset as int,
        ),
{
    put_i32(out, nbr_types as i32);
    put_i32(out, nbr_assets as i32);
    put_i32(out, len_names as i32);
    put_u32(out, MAP_HEADER_LEN as u32);
    put_u32(out, recs_offset as u32);
    put_u32(out, names_offset as u32);
    assert(out@ =~= old(out)@ + map_header_bytes(
        nbr_types as int,
        nbr_assets as int,
        len_names as int,
        recs_offset as int,
        names_offset as int,
    ));
}

/// Append the type table.
fn put_types(out: &mut Vec<u8>, types: &Vec<AssetTypeRec>)
    ensures
        final(out)@ == old(out)@ + types_bytes(types@),
{
    let n = types.len();
    let mut t: usize = 0;
    while t < n
        invariant
            n == types@.len(),
            t <= n,
            out@ == old(out)@ + types_bytes(types@.subrange(0, t as int)),
        decreases n - t,
    {
        let rec = types[t];
        put_i32(out, rec.asset_type);
        put_i32(out, rec.nbr_assets);
        put_i32(out, rec.first_asset);
        proof {
            let prefix = types@.subrange(0, t as int + 1);
            assert(prefix.drop_last() =~= types@.subrange(0, t as int));
        }
        t = t + 1;
        assert(out@ =~= old(out)@ + types_bytes(types@.subrange(0, t as int)));
    }
    assert(types@.subrange(0, t as int) =~= types@);
}

/// Append the record table.
fn put_recs(out: &mut Vec<u8>, records: &Vec<super::record::PropRecord>)
    ensures
        final(out)@ == old(out)@ + recs_bytes(super::read::records_view(records@)),
{
    let ghost rv = super::read::records_view(records@);
    let n = records.len();
    let mut k: usize = 0;
    while k < n
        invariant
            n == records@.len(),
            k <= n,
            rv == super::read::records_view(records@),
            out@ == old(out)@ + recs_bytes(rv.subrange(0, k as int)),
        decreases n - k,
    {
        let rec = records[k].rec;
        put_i32(out, rec.id);
        put_i32(out, rec.r_handle);
        put_u32(out, rec.data_offset);
        put_u32(out, rec.data_size);
        put_i32(out, rec.last_use_time);
        put_i32(out, rec.name_offset);
        put_u32(out, rec.flags);
        put_u32(out, rec.crc);
        proof {
            let prefix = rv.subrange(0, k as int + 1);
            assert(prefix.drop_last() =~= rv.subrange(0, k as int));
            assert(prefix.last().rec == rec);
        }
        k = k + 1;
        assert(out@ =~= old(out)@ + recs_bytes(rv.subrange(0, k as int)));
    }
    assert(rv.subrange(0, k as int) =~= rv);
}

/// The error a refused write reports.
fn refusal(detail: &str) -> (r: PropError)
    ensures
        r matches PropError::BagIo { .. },
{
    let mut text = String::from_str(".prp write refused: ");
    text.append(detail);
    PropError::BagIo { detail: text }
}

/// Serialise a roster, preserving the data region and every record field
/// verbatim.
#[verifier::rlimit(80)]
#[verifier::spinoff_prover]
pub fn serialize(roster: &Roster) -> (r: Result<Vec<u8>, PropError>)
    ensures
        layout_fits(roster@) ==> (r matches Ok(bytes) && bytes@ == spec_serialize(roster@)),
        !layout_fits(roster@) ==> r matches Err(PropError::BagIo { .. }),
{
    let ghost v = roster@;
    let types = &roster.types;
    let records = &roster.records;
    let names = &roster.names;
    let data = roster.data.as_slice();
    let nbr_types = types.len();
    let nbr_assets = records.len();
    let names_blob_bytes = encode_names(names);
    let len_names = names_blob_bytes.len();
    let data_size = data.len();
    let recs_offset = match nbr_types.checked_mul(12) {
        Some(t) => match t.checked_add(MAP_HEADER_LEN) {
            Some(o) => o,
            None => {
                return Err(refusal("the type table does not fit in memory"));
            },
        },
        None => {
            return Err(refusal("the type table does not fit in memory"));
        },
    };
    let names_offset = match nbr_assets.checked_mul(32) {
        Some(t) => match t.checked_add(recs_offset) {
            Some(o) => o,
            None => {
                return Err(refusal("the record table does not fit in memory"));
            },
        },
        None => {
            return Err(refusal("the record table does not fit in memory"));
        },
    };
    let map_size = match names_offset.checked_add(len_names) {
        Some(s) => s,
        None => {
            return Err(refusal("the asset map does not fit in memory"));
        },
    };
    let map_offset = match data_size.checked_add(FILE_HEADER_LEN) {
        Some(o) => o,
        None => {
            return Err(refusal("the data region does not fit in memory"));
        },
    };
    if map_offset.checked_add(map_size).is_none() {
        return Err(refusal("the file does not fit in memory"));
    }
    let mut out: Vec<u8> = Vec::new();
    put_file_header(&mut out, data_size, map_size);
    assert(out@ == file_header_bytes(data_size as int, map_size as int)) by {
        assert(Seq::<u8>::empty() + file_header_bytes(data_size as int, map_size as int)
            =~= file_header_bytes(data_size as int, map_size as int));
    }
    put_bytes(&mut out, data);
    put_map_header(&mut out, nbr_types, nbr_assets, len_names, recs_offset, names_offset);
    put_types(&mut out, types);
    put_recs(&mut out, records);
    put_bytes(&mut out, names_blob_bytes.as_slice());
    proof {
        lemma_types_bytes_len(types@);
        lemma_recs_bytes_len(super::read::records_view(records@));
    }
    proof {
        lemma_serialize_parts(
            v,
            map_size as int,
            len_names as int,
            recs_offset as int,
            names_offset as int,
        );
        assert(super::read::records_view(records@) == v.records);
    }
    let filesize = out.len();
    if (map_offset as u64) + (map_size as u64) != filesize as u64 {
        return Err(refusal("the file would violate filesize == assetMapOffset + assetMapSize"));
    }
    Ok(out)
}

} // verus!
