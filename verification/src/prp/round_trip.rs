//! The writer and the reader are inverse: a roster in the layout the writer
//! produces reads back as itself, so a file in that layout, parsed and written
//! unchanged, is reproduced byte for byte.

use vstd::prelude::*;

use crate::prp::model::{AssetFileHeader, AssetMapHeader, AssetTypeRec, FILE_HEADER_LEN, MAP_HEADER_LEN};
use crate::prp::model::{ASSET_REC_LEN, TYPE_REC_LEN};
use crate::prp::read::{
    lemma_parse_roster_parts, le_i32, le_u32, spec_asset_rec, spec_file_header, spec_map_header, spec_names_from,
    spec_parse_roster, spec_record, spec_record_name, spec_records, spec_type_rec,
};
use crate::prp::record::{spec_blob_encoding, spec_blob_header};
use crate::prp::RosterView;
use crate::text::{latin1_byte, latin1_encode, latin1_text};
use crate::prp::write::{
    asset_rec_bytes, file_header_bytes, i32_le, layout_fits, lemma_recs_bytes_len,
    lemma_types_bytes_len, map_header_bytes, map_size_of, name_entry, names_blob,
    names_offset_of, recs_bytes, recs_offset_of, spec_serialize, stored_name_len, type_rec_bytes,
    types_bytes, u32_le,
};
use crate::prp::RecordView;

verus! {

/// The four little-endian bytes of a word read back give the word.
pub proof fn lemma_u32_le_read(v: u32)
    ensures
        le_u32(u32_le(v), 0) == v,
        u32_le(v).len() == 4,
{
    let b = u32_le(v);
    assert(b[0] == (v % 256) as u8);
    assert(b[1] == ((v / 256) % 256) as u8);
    assert(b[2] == ((v / 65536) % 256) as u8);
    assert(b[3] == (v / 16777216) as u8);
    assert((v % 256) as u8 as int + ((v / 256) % 256) as u8 as int * 256 + ((v / 65536) % 256) as u8 as int
        * 65536 + (v / 16777216) as u8 as int * 16777216 == v) by (nonlinear_arith)
        requires
            v <= u32::MAX,
    {
        assert(v / 16777216 < 256);
    }
}

/// A word stored at `at` reads back at `at`.
pub proof fn lemma_read_u32_at(s: Seq<u8>, at: int, v: u32)
    requires
        0 <= at,
        at + 4 <= s.len(),
        s.subrange(at, at + 4) == u32_le(v),
    ensures
        le_u32(s, at) == v,
{
    lemma_u32_le_read(v);
    let b = u32_le(v);
    assert(s[at] == b[0]);
    assert(s[at + 1] == b[1]);
    assert(s[at + 2] == b[2]);
    assert(s[at + 3] == b[3]);
}

/// A signed word stored at `at` reads back at `at`.
pub proof fn lemma_read_i32_at(s: Seq<u8>, at: int, v: i32)
    requires
        0 <= at,
        at + 4 <= s.len(),
        s.subrange(at, at + 4) == i32_le(v),
    ensures
        le_i32(s, at) == v,
{
    lemma_read_u32_at(s, at, v as u32);
    assert((v as u32) as i32 == v) by (bit_vector);
}

/// A window inside the second half of a concatenation.
pub proof fn lemma_window_right(a: Seq<u8>, b: Seq<u8>, i: int, j: int)
    requires
        a.len() <= i <= j <= a.len() + b.len(),
    ensures
        (a + b).subrange(i, j) == b.subrange(i - a.len(), j - a.len()),
{
    assert((a + b).subrange(i, j) =~= b.subrange(i - a.len(), j - a.len()));
}

/// A window inside the first half of a concatenation.
pub proof fn lemma_window_left(a: Seq<u8>, b: Seq<u8>, i: int, j: int)
    requires
        0 <= i <= j <= a.len(),
    ensures
        (a + b).subrange(i, j) == a.subrange(i, j),
{
    assert((a + b).subrange(i, j) =~= a.subrange(i, j));
}

/// Type record `i` of a type table is its twelve bytes.
pub proof fn lemma_types_window(ts: Seq<AssetTypeRec>, i: int)
    requires
        0 <= i < ts.len(),
    ensures
        types_bytes(ts).subrange(12 * i, 12 * i + 12) == type_rec_bytes(ts[i]),
    decreases ts.len(),
{
    lemma_types_bytes_len(ts.drop_last());
    let a = types_bytes(ts.drop_last());
    let b = type_rec_bytes(ts.last());
    assert(types_bytes(ts) == a + b);
    if i == ts.len() - 1 {
        lemma_window_right(a, b, 12 * i, 12 * i + 12);
        assert(b.subrange(0, 12) =~= b);
    } else {
        lemma_types_window(ts.drop_last(), i);
        lemma_window_left(a, b, 12 * i, 12 * i + 12);
    }
}

/// Record `i` of a record table is its thirty-two bytes.
pub proof fn lemma_recs_window(rs: Seq<RecordView>, i: int)
    requires
        0 <= i < rs.len(),
    ensures
        recs_bytes(rs).subrange(32 * i, 32 * i + 32) == asset_rec_bytes(rs[i].rec),
    decreases rs.len(),
{
    lemma_recs_bytes_len(rs.drop_last());
    let a = recs_bytes(rs.drop_last());
    let b = asset_rec_bytes(rs.last().rec);
    assert(recs_bytes(rs) == a + b);
    if i == rs.len() - 1 {
        lemma_window_right(a, b, 32 * i, 32 * i + 32);
        assert(b.subrange(0, 32) =~= b);
    } else {
        lemma_recs_window(rs.drop_last(), i);
        lemma_window_left(a, b, 32 * i, 32 * i + 32);
    }
}

/// A type record's twelve bytes read back as the record.
pub proof fn lemma_type_rec_read(s: Seq<u8>, at: int, t: AssetTypeRec)
    requires
        0 <= at,
        at + 12 <= s.len(),
        s.subrange(at, at + 12) == type_rec_bytes(t),
    ensures
        spec_type_rec(s, at) == t,
{
    let w = type_rec_bytes(t);
    assert(s.subrange(at, at + 4) =~= w.subrange(0, 4));
    assert(s.subrange(at + 4, at + 8) =~= w.subrange(4, 8));
    assert(s.subrange(at + 8, at + 12) =~= w.subrange(8, 12));
    assert(w.subrange(0, 4) =~= i32_le(t.asset_type));
    assert(w.subrange(4, 8) =~= i32_le(t.nbr_assets));
    assert(w.subrange(8, 12) =~= i32_le(t.first_asset));
    lemma_read_i32_at(s, at, t.asset_type);
    lemma_read_i32_at(s, at + 4, t.nbr_assets);
    lemma_read_i32_at(s, at + 8, t.first_asset);
}

/// An asset record's thirty-two bytes read back as the record.
pub proof fn lemma_asset_rec_read(s: Seq<u8>, at: int, r: crate::prp::AssetRec)
    requires
        0 <= at,
        at + 32 <= s.len(),
        s.subrange(at, at + 32) == asset_rec_bytes(r),
    ensures
        spec_asset_rec(s, at) == r,
{
    let w = asset_rec_bytes(r);
    assert(w.subrange(0, 4) =~= i32_le(r.id));
    assert(w.subrange(4, 8) =~= i32_le(r.r_handle));
    assert(w.subrange(8, 12) =~= u32_le(r.data_offset));
    assert(w.subrange(12, 16) =~= u32_le(r.data_size));
    assert(w.subrange(16, 20) =~= i32_le(r.last_use_time));
    assert(w.subrange(20, 24) =~= i32_le(r.name_offset));
    assert(w.subrange(24, 28) =~= u32_le(r.flags));
    assert(w.subrange(28, 32) =~= u32_le(r.crc));
    assert(s.subrange(at, at + 4) =~= w.subrange(0, 4));
    assert(s.subrange(at + 4, at + 8) =~= w.subrange(4, 8));
    assert(s.subrange(at + 8, at + 12) =~= w.subrange(8, 12));
    assert(s.subrange(at + 12, at + 16) =~= w.subrange(12, 16));
    assert(s.subrange(at + 16, at + 20) =~= w.subrange(16, 20));
    assert(s.subrange(at + 20, at + 24) =~= w.subrange(20, 24));
    assert(s.subrange(at + 24, at + 28) =~= w.subrange(24, 28));
    assert(s.subrange(at + 28, at + 32) =~= w.subrange(28, 32));
    lemma_read_i32_at(s, at, r.id);
    lemma_read_i32_at(s, at + 4, r.r_handle);
    lemma_read_u32_at(s, at + 8, r.data_offset);
    lemma_read_u32_at(s, at + 12, r.data_size);
    lemma_read_i32_at(s, at + 16, r.last_use_time);
    lemma_read_i32_at(s, at + 20, r.name_offset);
    lemma_read_u32_at(s, at + 24, r.flags);
    lemma_read_u32_at(s, at + 28, r.crc);
}

/// Names in the layout the writer produces: each keyed by where its entry
/// starts in the names blob, at most 255 characters long, all of them latin-1.
#[verifier::opaque]
pub open spec fn names_literal(names: Seq<(u32, Seq<char>)>) -> bool {
    forall|i: int|
        0 <= i < names.len() ==> {
            &&& (#[trigger] names[i]).0 as int == names_blob(names.subrange(0, i)).len()
            &&& names[i].1.len() <= 255
            &&& forall|j: int| 0 <= j < names[i].1.len() ==> (names[i].1[j] as u32) <= 0xFF
        }
}

/// The names blob of a list is the blob of a prefix followed by the blob of
/// the rest.
pub proof fn lemma_names_blob_split(names: Seq<(u32, Seq<char>)>, k: int)
    requires
        0 <= k <= names.len(),
    ensures
        names_blob(names) == names_blob(names.subrange(0, k)) + names_blob(
            names.subrange(k, names.len() as int),
        ),
    decreases names.len(),
{
    if k == names.len() {
        assert(names.subrange(0, k) =~= names);
        assert(names.subrange(k, names.len() as int) =~= Seq::<(u32, Seq<char>)>::empty());
        assert(names_blob(names) + Seq::<u8>::empty() =~= names_blob(names));
    } else {
        let dl = names.drop_last();
        lemma_names_blob_split(dl, k);
        assert(dl.subrange(0, k) =~= names.subrange(0, k));
        let rest = names.subrange(k, names.len() as int);
        assert(rest.drop_last() =~= dl.subrange(k, dl.len() as int));
        assert(rest.last() == names.last());
        assert(names_blob(names) =~= names_blob(names.subrange(0, k)) + names_blob(rest));
    }
}

/// A short latin-1 name's stored bytes read back as the name.
pub proof fn lemma_latin1_name(name: Seq<char>)
    requires
        name.len() <= 255,
        forall|j: int| 0 <= j < name.len() ==> (name[j] as u32) <= 0xFF,
    ensures
        stored_name_len(name) == name.len(),
        latin1_text(latin1_encode(name).subrange(0, stored_name_len(name))) == name,
{
    let bytes = latin1_encode(name).subrange(0, name.len() as int);
    assert forall|j: int| 0 <= j < name.len() implies latin1_text(bytes)[j] == name[j] by {
        let c = name[j];
        let u = c as u32;
        assert(u <= 0xFF);
        assert(latin1_byte(c) == u as u8);
        assert(((u as u8) as u32) == u) by (bit_vector)
            requires
                u <= 0xFF,
        ;
        vstd::utf8::char_u32_cast(c, u);
    }
    assert(latin1_text(bytes) =~= name);
}

/// The entry of name `k` sits in the names blob right after the entries
/// before it.
pub proof fn lemma_name_entry_window(names: Seq<(u32, Seq<char>)>, k: int)
    requires
        0 <= k < names.len(),
    ensures
        ({
            let at = names_blob(names.subrange(0, k)).len() as int;
            let entry = name_entry(names[k].1);
            &&& names_blob(names.subrange(0, k + 1)).len() == at + entry.len()
            &&& at + entry.len() <= names_blob(names).len()
            &&& names_blob(names).subrange(at, at + entry.len()) == entry
        }),
{
    let at = names_blob(names.subrange(0, k)).len() as int;
    let entry = name_entry(names[k].1);
    lemma_names_blob_split(names, k + 1);
    let p1 = names.subrange(0, k + 1);
    assert(p1.drop_last() =~= names.subrange(0, k));
    assert(p1.last() == names[k]);
    assert(names_blob(p1) == names_blob(names.subrange(0, k)) + entry);
    let rest = names_blob(names.subrange(k + 1, names.len() as int));
    assert(names_blob(names) == names_blob(names.subrange(0, k)) + entry + rest);
    assert((names_blob(names.subrange(0, k)) + entry + rest).subrange(at, at + entry.len())
        =~= entry);
}

/// Reading one entry of the names blob gives name `k`.
pub proof fn lemma_names_read_one(names: Seq<(u32, Seq<char>)>, k: int)
    requires
        0 <= k < names.len(),
        names[k].0 as int == names_blob(names.subrange(0, k)).len(),
        names[k].1.len() <= 255,
        forall|j: int| 0 <= j < names[k].1.len() ==> (names[k].1[j] as u32) <= 0xFF,
    ensures
        ({
            let blob = names_blob(names);
            let at = names_blob(names.subrange(0, k)).len() as int;
            let end = at + 1 + blob[at] as int;
            &&& 0 <= at < blob.len()
            &&& end <= blob.len()
            &&& end == names_blob(names.subrange(0, k + 1)).len()
            &&& (at as u32, latin1_text(blob.subrange(at + 1, end))) == names[k]
        }),
{
    let blob = names_blob(names);
    let at = names_blob(names.subrange(0, k)).len() as int;
    let name = names[k].1;
    let entry = name_entry(name);
    lemma_name_entry_window(names, k);
    lemma_latin1_name(name);
    assert(entry[0] == name.len() as u8);
    assert(blob[at] == entry[0]);
    let end = at + 1 + name.len();
    assert(blob.subrange(at + 1, end) =~= entry.subrange(1, entry.len() as int));
    assert(entry.subrange(1, entry.len() as int) =~= latin1_encode(name).subrange(
        0,
        stored_name_len(name),
    ));
    assert(names[k].0 as int == at);
}

/// Reading the names blob from the entry of name `k` on gives the names from
/// `k` on.
pub proof fn lemma_names_read(names: Seq<(u32, Seq<char>)>, k: int)
    requires
        names_literal(names),
        0 <= k <= names.len(),
    ensures
        spec_names_from(names_blob(names), names_blob(names.subrange(0, k)).len() as int)
            == names.subrange(k, names.len() as int),
    decreases names.len() - k,
{
    let blob = names_blob(names);
    let at = names_blob(names.subrange(0, k)).len() as int;
    if k == names.len() {
        lemma_names_blob_split(names, k);
        assert(names.subrange(k, names.len() as int) =~= Seq::<(u32, Seq<char>)>::empty());
        assert(names.subrange(0, k) =~= names);
    } else {
        reveal(names_literal);
        assert(names[k].0 as int == names_blob(names.subrange(0, k)).len());
        lemma_names_read_one(names, k);
        lemma_names_read(names, k + 1);
        assert(names.subrange(k, names.len() as int) =~= seq![names[k]] + names.subrange(
            k + 1,
            names.len() as int,
        ));
    }
}

/// A record in the layout the writer produces: its blob is the data-region
/// slice its offset and size name, its header and encoding are what that
/// blob says, and its name is what its name offset resolves to.
pub open spec fn record_literal(w: RosterView, r: RecordView) -> bool {
    &&& r.rec.data_offset as int + r.rec.data_size as int <= w.data.len()
    &&& r.blob == w.data.subrange(
        r.rec.data_offset as int,
        r.rec.data_offset as int + r.rec.data_size as int,
    )
    &&& r.header == spec_blob_header(r.blob)
    &&& r.encoding == spec_blob_encoding(r.blob)
    &&& r.name == spec_record_name(w.names, r.rec)
}

/// A roster in the layout the writer produces: the data region right after
/// the 16-byte file header, the asset map right after it with its tables
/// packed in order, the headers saying so, nothing dropped, names in the
/// writer's layout, and every record pointing into the data region.
#[verifier::opaque]
pub open spec fn literal(w: RosterView) -> bool {
    let map_size = map_size_of(w);
    &&& FILE_HEADER_LEN + w.data.len() + map_size <= u32::MAX
    &&& w.types.len() <= i32::MAX
    &&& w.records.len() <= i32::MAX
    &&& names_blob(w.names).len() <= i32::MAX
    &&& w.file == (AssetFileHeader {
        data_offset: FILE_HEADER_LEN as u32,
        data_size: w.data.len() as u32,
        asset_map_offset: (FILE_HEADER_LEN + w.data.len()) as u32,
        asset_map_size: map_size as u32,
    })
    &&& w.map == (AssetMapHeader {
        nbr_types: w.types.len() as i32,
        nbr_assets: w.records.len() as i32,
        len_names: names_blob(w.names).len() as i32,
        types_offset: MAP_HEADER_LEN as u32,
        recs_offset: recs_offset_of(w) as u32,
        names_offset: names_offset_of(w) as u32,
    })
    &&& w.dropped == 0
    &&& names_literal(w.names)
    &&& forall|i: int| 0 <= i < w.records.len() ==> record_literal(w, #[trigger] w.records[i])
}

/// One record reads back from the record table.
#[verifier::rlimit(50)]
proof fn lemma_record_read_one(w: RosterView, buf: Seq<u8>, recs: Seq<u8>, i: int)
    requires
        0 <= i < w.records.len(),
        record_literal(w, w.records[i]),
        recs == recs_bytes(w.records),
        buf.subrange(FILE_HEADER_LEN as int, (FILE_HEADER_LEN + w.data.len()) as int) == w.data,
        buf.len() >= FILE_HEADER_LEN + w.data.len(),
        FILE_HEADER_LEN + w.data.len() <= usize::MAX,
    ensures
        spec_record(buf, recs, i, w.names, FILE_HEADER_LEN as int, (FILE_HEADER_LEN + w.data.len()) as int)
            == Some(w.records[i]),
{
    let map_start = (FILE_HEADER_LEN + w.data.len()) as int;
    let r = w.records[i];
    lemma_recs_bytes_len(w.records);
    lemma_recs_window(w.records, i);
    lemma_asset_rec_read(recs, 32 * i, r.rec);
    let start = FILE_HEADER_LEN + r.rec.data_offset as int;
    let end = start + r.rec.data_size as int;
    let off = r.rec.data_offset as int;
    assert forall|j: int| 0 <= j < end - start implies buf.subrange(start, end)[j] == w.data[off + j] by {
        assert(buf.subrange(FILE_HEADER_LEN as int, map_start)[off + j] == buf[start + j]);
    }
    assert(buf.subrange(start, end) =~= w.data.subrange(off, off + r.rec.data_size as int));
}

/// The first `n` records read back from the record table.
proof fn lemma_records_read(w: RosterView, buf: Seq<u8>, recs: Seq<u8>, n: int)
    requires
        0 <= n <= w.records.len(),
        forall|i: int| 0 <= i < w.records.len() ==> record_literal(w, #[trigger] w.records[i]),
        recs == recs_bytes(w.records),
        buf.subrange(FILE_HEADER_LEN as int, (FILE_HEADER_LEN + w.data.len()) as int) == w.data,
        buf.len() >= FILE_HEADER_LEN + w.data.len(),
        FILE_HEADER_LEN + w.data.len() <= usize::MAX,
    ensures
        spec_records(buf, recs, n, w.names, FILE_HEADER_LEN as int, (FILE_HEADER_LEN + w.data.len()) as int)
            == (w.records.subrange(0, n), 0nat),
    decreases n,
{
    if n == 0 {
        assert(w.records.subrange(0, 0) =~= Seq::<RecordView>::empty());
    } else {
        lemma_records_read(w, buf, recs, n - 1);
        lemma_record_read_one(w, buf, recs, n - 1);
        assert(w.records.subrange(0, n) =~= w.records.subrange(0, n - 1).push(w.records[n - 1]));
    }
}

/// The file header reads back.
proof fn lemma_file_header_read(buf: Seq<u8>, data_len: int, map_size: int)
    requires
        buf.len() >= 16,
        0 <= data_len,
        0 <= map_size,
        FILE_HEADER_LEN + data_len + map_size <= u32::MAX,
        buf.subrange(0, 16) == file_header_bytes(data_len, map_size),
    ensures
        spec_file_header(buf) == (AssetFileHeader {
            data_offset: FILE_HEADER_LEN as u32,
            data_size: data_len as u32,
            asset_map_offset: (FILE_HEADER_LEN + data_len) as u32,
            asset_map_size: map_size as u32,
        }),
{
    let fh = file_header_bytes(data_len, map_size);
    assert(buf.subrange(0, 4) =~= fh.subrange(0, 4));
    assert(buf.subrange(4, 8) =~= fh.subrange(4, 8));
    assert(buf.subrange(8, 12) =~= fh.subrange(8, 12));
    assert(buf.subrange(12, 16) =~= fh.subrange(12, 16));
    assert(fh.subrange(0, 4) =~= u32_le(FILE_HEADER_LEN as u32));
    assert(fh.subrange(4, 8) =~= u32_le(data_len as u32));
    assert(fh.subrange(8, 12) =~= u32_le((FILE_HEADER_LEN + data_len) as u32));
    assert(fh.subrange(12, 16) =~= u32_le(map_size as u32));
    lemma_read_u32_at(buf, 0, FILE_HEADER_LEN as u32);
    lemma_read_u32_at(buf, 4, data_len as u32);
    lemma_read_u32_at(buf, 8, (FILE_HEADER_LEN + data_len) as u32);
    lemma_read_u32_at(buf, 12, map_size as u32);
}

/// The map header reads back.
proof fn lemma_map_header_read(
    region: Seq<u8>,
    nt: int,
    na: int,
    ln: int,
    ro: int,
    no: int,
)
    requires
        region.len() >= 24,
        0 <= nt <= i32::MAX,
        0 <= na <= i32::MAX,
        0 <= ln <= i32::MAX,
        0 <= ro <= u32::MAX,
        0 <= no <= u32::MAX,
        region.subrange(0, 24) == map_header_bytes(nt, na, ln, ro, no),
    ensures
        spec_map_header(region) == (AssetMapHeader {
            nbr_types: nt as i32,
            nbr_assets: na as i32,
            len_names: ln as i32,
            types_offset: MAP_HEADER_LEN as u32,
            recs_offset: ro as u32,
            names_offset: no as u32,
        }),
{
    let mh = map_header_bytes(nt, na, ln, ro, no);
    assert(region.subrange(0, 4) =~= mh.subrange(0, 4));
    assert(region.subrange(4, 8) =~= mh.subrange(4, 8));
    assert(region.subrange(8, 12) =~= mh.subrange(8, 12));
    assert(region.subrange(12, 16) =~= mh.subrange(12, 16));
    assert(region.subrange(16, 20) =~= mh.subrange(16, 20));
    assert(region.subrange(20, 24) =~= mh.subrange(20, 24));
    assert(mh.subrange(0, 4) =~= i32_le(nt as i32));
    assert(mh.subrange(4, 8) =~= i32_le(na as i32));
    assert(mh.subrange(8, 12) =~= i32_le(ln as i32));
    assert(mh.subrange(12, 16) =~= u32_le(MAP_HEADER_LEN as u32));
    assert(mh.subrange(16, 20) =~= u32_le(ro as u32));
    assert(mh.subrange(20, 24) =~= u32_le(no as u32));
    lemma_read_i32_at(region, 0, nt as i32);
    lemma_read_i32_at(region, 4, na as i32);
    lemma_read_i32_at(region, 8, ln as i32);
    lemma_read_u32_at(region, 12, MAP_HEADER_LEN as u32);
    lemma_read_u32_at(region, 16, ro as u32);
    lemma_read_u32_at(region, 20, no as u32);
}

/// The type table reads back.
proof fn lemma_types_read(s: Seq<u8>, n: nat, types: Seq<AssetTypeRec>)
    requires
        s == types_bytes(types),
        n == types.len(),
    ensures
        Seq::new(n, |i: int| spec_type_rec(s, i * TYPE_REC_LEN)) == types,
        forall|i: int| 0 <= i < types.len() ==> spec_type_rec(s, i * TYPE_REC_LEN) == #[trigger] types[i],
{
    lemma_types_bytes_len(types);
    assert forall|i: int| 0 <= i < types.len() implies spec_type_rec(s, i * TYPE_REC_LEN)
        == types[i] by {
        lemma_types_window(types, i);
        lemma_type_rec_read(s, 12 * i, types[i]);
    }
    assert(Seq::new(n, |i: int| spec_type_rec(s, i * TYPE_REC_LEN)) =~= types);
}

/// The names blob reads back.
proof fn lemma_names_read_all(names: Seq<(u32, Seq<char>)>)
    requires
        names_literal(names),
    ensures
        spec_names_from(names_blob(names), 0) == names,
{
    lemma_names_read(names, 0);
    assert(names.subrange(0, 0) =~= Seq::<(u32, Seq<char>)>::empty());
    assert(names.subrange(0, names.len() as int) =~= names);
}

/// Where each part of a file in the writer's layout sits.
#[verifier::opaque]
pub open spec fn writer_layout(w: RosterView, buf: Seq<u8>) -> bool {
    let nb = names_blob(w.names);
    let map_start = (FILE_HEADER_LEN + w.data.len()) as int;
    let map_end = map_start + map_size_of(w);
    let region = buf.subrange(map_start, map_end);
    &&& buf.len() == map_end
    &&& buf.subrange(0, 16) == file_header_bytes(w.data.len() as int, map_size_of(w))
    &&& buf.subrange(FILE_HEADER_LEN as int, map_start) == w.data
    &&& region.len() == map_size_of(w)
    &&& region.subrange(0, 24) == map_header_bytes(
        w.types.len() as int,
        w.records.len() as int,
        nb.len() as int,
        recs_offset_of(w),
        names_offset_of(w),
    )
    &&& region.subrange(24, 24 + 12 * w.types.len() as int) == types_bytes(w.types)
    &&& region.subrange(recs_offset_of(w), recs_offset_of(w) + 32 * w.records.len() as int)
        == recs_bytes(w.records)
    &&& region.subrange(names_offset_of(w), names_offset_of(w) + nb.len() as int) == nb
}

/// Where each part of the written file sits.
#[verifier::rlimit(50)]
proof fn lemma_serialized_layout(w: RosterView)
    ensures
        writer_layout(w, spec_serialize(w)),
{
    reveal(writer_layout);
    let nb = names_blob(w.names);
    let fh = file_header_bytes(w.data.len() as int, map_size_of(w));
    let mh = map_header_bytes(
        w.types.len() as int,
        w.records.len() as int,
        nb.len() as int,
        recs_offset_of(w),
        names_offset_of(w),
    );
    let tb = types_bytes(w.types);
    let rb = recs_bytes(w.records);
    lemma_types_bytes_len(w.types);
    lemma_recs_bytes_len(w.records);
    let buf = spec_serialize(w);
    let map_start = (FILE_HEADER_LEN + w.data.len()) as int;
    let map_end = map_start + map_size_of(w);
    let region = buf.subrange(map_start, map_end);
    let tail = mh + tb + rb + nb;
    assert(buf =~= fh + w.data + tail);
    assert(buf.subrange(0, 16) =~= fh);
    assert(buf.subrange(FILE_HEADER_LEN as int, map_start) =~= w.data);
    assert(region =~= tail);
    assert(tail.subrange(0, 24) =~= mh);
    assert(tail.subrange(24, 24 + 12 * w.types.len() as int) =~= tb);
    assert(tail.subrange(recs_offset_of(w), recs_offset_of(w) + 32 * w.records.len() as int) =~= rb);
    assert(tail.subrange(names_offset_of(w), names_offset_of(w) + nb.len() as int) =~= nb);
}

/// The header facts a literal roster carries.
proof fn lemma_literal_facts(w: RosterView)
    requires
        literal(w),
    ensures
        FILE_HEADER_LEN + w.data.len() + map_size_of(w) <= u32::MAX,
        w.types.len() <= i32::MAX,
        w.records.len() <= i32::MAX,
        names_blob(w.names).len() <= i32::MAX,
        w.dropped == 0,
        names_literal(w.names),
        w.file == (AssetFileHeader {
            data_offset: FILE_HEADER_LEN as u32,
            data_size: w.data.len() as u32,
            asset_map_offset: (FILE_HEADER_LEN + w.data.len()) as u32,
            asset_map_size: map_size_of(w) as u32,
        }),
        w.map == (AssetMapHeader {
            nbr_types: w.types.len() as i32,
            nbr_assets: w.records.len() as i32,
            len_names: names_blob(w.names).len() as i32,
            types_offset: MAP_HEADER_LEN as u32,
            recs_offset: recs_offset_of(w) as u32,
            names_offset: names_offset_of(w) as u32,
        }),
{
    reveal(literal);
}

/// The records of a literal roster read back from its record table.
proof fn lemma_literal_records(w: RosterView, buf: Seq<u8>)
    requires
        literal(w),
        buf.subrange(FILE_HEADER_LEN as int, (FILE_HEADER_LEN + w.data.len()) as int) == w.data,
        buf.len() >= FILE_HEADER_LEN + w.data.len(),
        FILE_HEADER_LEN + w.data.len() <= usize::MAX,
    ensures
        spec_records(buf, recs_bytes(w.records), w.records.len() as int, w.names, FILE_HEADER_LEN as int, (FILE_HEADER_LEN + w.data.len()) as int)
            == (w.records, 0nat),
{
    reveal(literal);
    lemma_records_read(w, buf, recs_bytes(w.records), w.records.len() as int);
    assert(w.records.subrange(0, w.records.len() as int) =~= w.records);
}

/// The file header of a file in the writer's layout reads back as the
/// roster's.
proof fn lemma_layout_file(w: RosterView, buf: Seq<u8>)
    requires
        literal(w),
        writer_layout(w, buf),
    ensures
        buf.len() >= FILE_HEADER_LEN,
        spec_file_header(buf) == w.file,
        w.file.asset_map_offset as int == FILE_HEADER_LEN + w.data.len(),
        w.file.asset_map_offset as int + w.file.asset_map_size as int == buf.len(),
        w.file.data_offset as int == FILE_HEADER_LEN,
        buf.len() <= u32::MAX,
        buf.subrange(FILE_HEADER_LEN as int, FILE_HEADER_LEN + w.data.len()) == w.data,
{
    reveal(writer_layout);
    lemma_types_bytes_len(w.types);
    lemma_recs_bytes_len(w.records);
    lemma_literal_facts(w);
    lemma_file_header_read(buf, w.data.len() as int, map_size_of(w));
}

/// The map header bytes of a file in the writer's layout.
proof fn lemma_layout_map_bytes(w: RosterView, buf: Seq<u8>)
    requires
        writer_layout(w, buf),
    ensures
        buf.len() == FILE_HEADER_LEN + w.data.len() + map_size_of(w),
        buf.subrange(FILE_HEADER_LEN + w.data.len(), buf.len() as int).subrange(0, 24)
            == map_header_bytes(
            w.types.len() as int,
            w.records.len() as int,
            names_blob(w.names).len() as int,
            recs_offset_of(w),
            names_offset_of(w),
        ),
{
    reveal(writer_layout);
}

/// The map header of a file in the writer's layout reads back as the
/// roster's.
proof fn lemma_layout_map(w: RosterView, buf: Seq<u8>)
    requires
        literal(w),
        writer_layout(w, buf),
        w.file.asset_map_offset as int == FILE_HEADER_LEN + w.data.len(),
    ensures
        spec_map_header(buf.subrange(w.file.asset_map_offset as int, buf.len() as int)) == w.map,
        buf.len() - w.file.asset_map_offset >= MAP_HEADER_LEN,
        w.map.types_offset == 24,
        w.map.nbr_types as int == w.types.len(),
        w.map.nbr_assets as int == w.records.len(),
        w.map.len_names as int == names_blob(w.names).len(),
        w.map.recs_offset as int == recs_offset_of(w),
        w.map.names_offset as int == names_offset_of(w),
{
    lemma_layout_map_bytes(w, buf);
    lemma_literal_facts(w);
    let region = buf.subrange(w.file.asset_map_offset as int, buf.len() as int);
    assert(region.len() >= 24);
    lemma_map_header_read(
        region,
        w.types.len() as int,
        w.records.len() as int,
        names_blob(w.names).len() as int,
        recs_offset_of(w),
        names_offset_of(w),
    );
}

/// The tables of a file in the writer's layout sit where its map header
/// says.
proof fn lemma_layout_tables(w: RosterView, buf: Seq<u8>)
    requires
        writer_layout(w, buf),
        w.file.asset_map_offset as int == FILE_HEADER_LEN + w.data.len(),
    ensures
        ({
            let region = buf.subrange(w.file.asset_map_offset as int, buf.len() as int);
            &&& region.subrange(24, 24 + w.types.len() * TYPE_REC_LEN) == types_bytes(w.types)
            &&& region.subrange(
                recs_offset_of(w),
                recs_offset_of(w) + w.records.len() * ASSET_REC_LEN,
            ) == recs_bytes(w.records)
            &&& region.subrange(names_offset_of(w), names_offset_of(w) + names_blob(w.names).len())
                == names_blob(w.names)
            &&& 24 + w.types.len() * TYPE_REC_LEN <= region.len()
            &&& recs_offset_of(w) + w.records.len() * ASSET_REC_LEN <= region.len()
            &&& names_offset_of(w) + names_blob(w.names).len() <= region.len()
        }),
{
    reveal(writer_layout);
    lemma_types_bytes_len(w.types);
    lemma_recs_bytes_len(w.records);
}

/// A buffer laid out as the writer lays out a literal roster reads back as
/// that roster.
#[verifier::rlimit(60)]
proof fn lemma_parse_layout(w: RosterView, buf: Seq<u8>)
    requires
        literal(w),
        writer_layout(w, buf),
    ensures
        spec_parse_roster(buf) == Some(w),
{
    lemma_layout_file(w, buf);
    lemma_layout_map(w, buf);
    lemma_layout_tables(w, buf);
    lemma_literal_facts(w);
    lemma_names_read_all(w.names);
    lemma_literal_records(w, buf);
    lemma_types_read(types_bytes(w.types), w.types.len(), w.types);
    lemma_parse_roster_parts(buf, w.types, w.records, w.names);
}

/// A literal roster, written and read back, is the same roster.
pub proof fn lemma_parse_serialize(w: RosterView)
    requires
        literal(w),
    ensures
        spec_parse_roster(spec_serialize(w)) == Some(w),
{
    lemma_serialized_layout(w);
    lemma_parse_layout(w, spec_serialize(w));
}

/// A file in the writer's layout, parsed and written unchanged, is
/// reproduced byte for byte.
pub proof fn lemma_write_of_parse(w: RosterView, buf: Seq<u8>)
    requires
        literal(w),
        buf == spec_serialize(w),
    ensures
        spec_parse_roster(buf) matches Some(v) && layout_fits(v) && spec_serialize(v) == buf,
{
    lemma_parse_serialize(w);
    assert(layout_fits(w)) by {
        reveal(literal);
    }
}

} // verus!
