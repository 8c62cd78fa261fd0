//! The Palace prop bag: a `.bundle` holding the client's own collection of
//! props, as two flat files.
//!
//! ```text
//! PalaceChat.pids    the index
//! PalaceChat.props   the blobs, concatenated
//! ```
//!
//! `.pids` is a flat array of 16-byte big-endian records
//! `(a: u32, b: u32, offset: u32, size: u32)`; `offset`/`size` address a slice of
//! `.props`. Each blob is a fixed 32-byte opaque prefix followed by a standard
//! prop blob. `(a, b)` is the bag's identity pair: the asset id and, for
//! ordinary props, the payload CRC.

use vstd::prelude::*;

use crate::codec::thirtytwo::slice_to_vec;
use crate::error::PropError;
use crate::header::{spec_parse_header, PropHeader};
use crate::{decode, decode_header, prop_result, spec_decode, Prop};

verus! {

/// Bytes of opaque per-blob metadata that precede the prop in a `.props` blob.
pub const BAG_PREFIX_LEN: usize = 32;

/// Bytes per `.pids` index record.
pub const BAG_INDEX_RECORD_LEN: usize = 16;

/// One prop-bag record: its identity pair, its location and its raw blob.
#[derive(Debug, Clone, PartialEq, Eq)]
pub struct BagEntry {
    a: u32,
    b: u32,
    offset: u32,
    size: u32,
    blob: Vec<u8>,
}

/// The abstract content of a bag entry.
pub struct EntryView {
    /// First identity word.
    pub a: u32,
    /// Second identity word.
    pub b: u32,
    /// Byte offset into `.props`.
    pub offset: u32,
    /// Blob length, prefix included.
    pub size: u32,
    /// The stored blob.
    pub blob: Seq<u8>,
}

impl View for BagEntry {
    type V = EntryView;

    closed spec fn view(&self) -> EntryView {
        EntryView { a: self.a, b: self.b, offset: self.offset, size: self.size, blob: self.blob@ }
    }
}

/// The prop bytes of a blob: everything after the 32-byte prefix.
pub open spec fn spec_prop_bytes(blob: Seq<u8>) -> Option<Seq<u8>> {
    if blob.len() >= BAG_PREFIX_LEN {
        Some(blob.subrange(BAG_PREFIX_LEN as int, blob.len() as int))
    } else {
        None
    }
}

impl BagEntry {
    /// Build an entry from its parts.
    pub fn new(a: u32, b: u32, offset: u32, size: u32, blob: Vec<u8>) -> (r: Self)
        ensures
            r@ == (EntryView { a, b, offset, size, blob: blob@ }),
    {
        BagEntry { a, b, offset, size, blob }
    }

    /// The first identity word; the asset id for ordinary props.
    pub fn a(&self) -> (r: u32)
        ensures
            r == self@.a,
    {
        self.a
    }

    /// The second identity word; the payload CRC for ordinary props.
    pub fn b(&self) -> (r: u32)
        ensures
            r == self@.b,
    {
        self.b
    }

    /// The record's byte offset into `.props`.
    pub fn offset(&self) -> (r: u32)
        ensures
            r == self@.offset,
    {
        self.offset
    }

    /// The record's blob length, prefix included.
    pub fn size(&self) -> (r: u32)
        ensures
            r == self@.size,
    {
        self.size
    }

    /// The whole stored blob, 32-byte prefix included.
    pub fn blob(&self) -> (r: &[u8])
        ensures
            r@ == self@.blob,
    {
        self.blob.as_slice()
    }

    /// The prop bytes: the blob with the 32-byte bag prefix removed; `None`
    /// when the blob is shorter than the prefix.
    pub fn prop_bytes(&self) -> (r: Option<&[u8]>)
        ensures
            match spec_prop_bytes(self@.blob) {
                Some(p) => r matches Some(s) && s@ == p,
                None => r is None,
            },
    {
        let n = self.blob.len();
        if n >= BAG_PREFIX_LEN {
            Some(&self.blob.as_slice()[BAG_PREFIX_LEN..n])
        } else {
            None
        }
    }

    /// Parse just the prop header, without decoding pixels.
    pub fn header(&self) -> (r: Result<PropHeader, PropError>)
        ensures
            match spec_prop_bytes(self@.blob) {
                Some(p) => r == spec_parse_header(p),
                None => r == Err::<PropHeader, PropError>(
                    PropError::BagBlobTooShort { available: self@.blob.len() as usize },
                ),
            },
    {
        match self.prop_bytes() {
            Some(p) => decode_header(p),
            None => Err(PropError::BagBlobTooShort { available: self.blob.len() }),
        }
    }

    /// Decode this entry's prop to a full image. Never panics; a malformed or
    /// non-prop payload is a [`PropError`].
    pub fn decode(&self) -> (r: Result<Prop, PropError>)
        ensures
            match spec_prop_bytes(self@.blob) {
                Some(p) => match spec_decode(p) {
                    Some(res) => prop_result(r) == res,
                    None => r matches Err(PropError::Zlib { .. }),
                },
                None => r == Err::<Prop, PropError>(
                    PropError::BagBlobTooShort { available: self@.blob.len() as usize },
                ),
            },
            r matches Ok(p) ==> p.image.wf(),
    {
        match self.prop_bytes() {
            Some(p) => decode(p),
            None => Err(PropError::BagBlobTooShort { available: self.blob.len() }),
        }
    }
}

/// A parsed prop bag: the surviving entries plus the index's quality metrics.
#[derive(Debug, Clone, PartialEq, Eq)]
pub struct PropBag {
    entries: Vec<BagEntry>,
    records: usize,
    trailing_bytes: usize,
    out_of_bounds: usize,
    tiled_pairs: usize,
    adjacent_pairs: usize,
    props_bytes: usize,
}

/// The abstract content of a bag.
pub struct BagView {
    /// Entries whose blobs were in bounds, in index order.
    pub entries: Seq<EntryView>,
    /// Complete 16-byte records in `.pids`.
    pub records: nat,
    /// Bytes after the last complete record.
    pub trailing_bytes: nat,
    /// Records dropped because they ran past `.props`.
    pub out_of_bounds: nat,
    /// Adjacent pairs with `offset[i] + size[i] == offset[i+1]`.
    pub tiled_pairs: nat,
    /// Adjacent pairs in total.
    pub adjacent_pairs: nat,
    /// Length of `.props`.
    pub props_bytes: nat,
}

/// The views of a list of entries.
pub open spec fn entries_view(entries: Seq<BagEntry>) -> Seq<EntryView> {
    Seq::new(entries.len(), |i: int| entries[i]@)
}

impl View for PropBag {
    type V = BagView;

    closed spec fn view(&self) -> BagView {
        BagView {
            entries: entries_view(self.entries@),
            records: self.records as nat,
            trailing_bytes: self.trailing_bytes as nat,
            out_of_bounds: self.out_of_bounds as nat,
            tiled_pairs: self.tiled_pairs as nat,
            adjacent_pairs: self.adjacent_pairs as nat,
            props_bytes: self.props_bytes as nat,
        }
    }
}

/// The big-endian `u32` at `at`.
pub open spec fn be_u32(b: Seq<u8>, at: int) -> u32 {
    (b[at] as int * 16777216 + b[at + 1] as int * 65536 + b[at + 2] as int * 256 + b[at
        + 3] as int) as u32
}

/// Word `w` of index record `i`.
pub open spec fn index_word(index: Seq<u8>, i: int, w: int) -> u32 {
    be_u32(index, i * BAG_INDEX_RECORD_LEN + 4 * w)
}

/// The slice of `.props` a record addresses, when it is in bounds.
pub open spec fn spec_blob_at(props: Seq<u8>, offset: u32, size: u32) -> Option<Seq<u8>> {
    if offset as int + size as int <= props.len() {
        Some(props.subrange(offset as int, offset as int + size as int))
    } else {
        None
    }
}

/// Whether record `i - 1` ends exactly where record `i` begins.
pub open spec fn tiles(index: Seq<u8>, i: int) -> bool {
    index_word(index, i - 1, 2) as int + index_word(index, i - 1, 3) as int == index_word(
        index,
        i,
        2,
    ) as int
}

/// The surviving entries, dropped count and tiled pairs among the first `k`
/// records.
pub open spec fn scan_bag(index: Seq<u8>, props: Seq<u8>, k: int) -> (Seq<EntryView>, nat, nat)
    decreases k,
{
    if k <= 0 {
        (Seq::empty(), 0, 0)
    } else {
        let (entries, oob, tiled) = scan_bag(index, props, k - 1);
        let i = k - 1;
        let tiled2 = if i > 0 && tiles(index, i) {
            tiled + 1
        } else {
            tiled
        };
        let offset = index_word(index, i, 2);
        let size = index_word(index, i, 3);
        match spec_blob_at(props, offset, size) {
            Some(blob) => (
                entries.push(
                    EntryView { a: index_word(index, i, 0), b: index_word(index, i, 1), offset, size, blob },
                ),
                oob,
                tiled2,
            ),
            None => (entries, oob + 1, tiled2),
        }
    }
}

/// What [`PropBag::parse`] makes of an index and a blob file.
pub open spec fn spec_parse_bag(index: Seq<u8>, props: Seq<u8>) -> BagView {
    let records = index.len() / BAG_INDEX_RECORD_LEN as nat;
    let (entries, oob, tiled) = scan_bag(index, props, records as int);
    BagView {
        entries,
        records,
        trailing_bytes: index.len() % BAG_INDEX_RECORD_LEN as nat,
        out_of_bounds: oob,
        tiled_pairs: tiled,
        adjacent_pairs: if records > 0 {
            (records - 1) as nat
        } else {
            0
        },
        props_bytes: props.len(),
    }
}

/// The first entry with identity `(a, b)` at or after `i`.
pub open spec fn find_entry(entries: Seq<EntryView>, a: u32, b: u32, i: int) -> Option<int>
    decreases entries.len() - i,
{
    if i < 0 || i >= entries.len() {
        None
    } else if entries[i].a == a && entries[i].b == b {
        Some(i)
    } else {
        find_entry(entries, a, b, i + 1)
    }
}

/// Read a big-endian `u32`.
pub(crate) fn read_be_u32(buf: &[u8], at: usize) -> (r: u32)
    requires
        at + 4 <= buf@.len(),
    ensures
        r == be_u32(buf@, at as int),
{
    (buf[at] as u32) * 16777216 + (buf[at + 1] as u32) * 65536 + (buf[at + 2] as u32) * 256 + (
    buf[at + 3] as u32)
}

/// Index record `i` as `(a, b, offset, size)`.
fn read_index_record(index: &[u8], i: usize) -> (r: (u32, u32, u32, u32))
    requires
        (i + 1) * BAG_INDEX_RECORD_LEN <= index@.len(),
    ensures
        r == (
            index_word(index@, i as int, 0),
            index_word(index@, i as int, 1),
            index_word(index@, i as int, 2),
            index_word(index@, i as int, 3),
        ),
{
    let _len = index.len();
    assert(i * 16 <= (i + 1) * 16);
    let at = i * BAG_INDEX_RECORD_LEN;
    (
        read_be_u32(index, at),
        read_be_u32(index, at + 4),
        read_be_u32(index, at + 8),
        read_be_u32(index, at + 12),
    )
}

/// The entry a record describes, when its blob lies inside `.props`.
fn entry_at(props: &[u8], a: u32, b: u32, offset: u32, size: u32) -> (r: Option<BagEntry>)
    ensures
        match spec_blob_at(props@, offset, size) {
            Some(blob) => r matches Some(e) && e@ == (EntryView { a, b, offset, size, blob }),
            None => r is None,
        },
{
    let plen = props.len();
    let start = offset as usize;
    let len = size as usize;
    if len <= plen && start <= plen - len {
        Some(BagEntry { a, b, offset, size, blob: slice_to_vec(&props[start..start + len]) })
    } else {
        None
    }
}

impl PropBag {
    /// Parse an in-memory index and blob file.
    ///
    /// This cannot fail: bytes that do not form complete records are counted
    /// ([`PropBag::trailing_bytes`]) and records that do not slice `.props` are
    /// dropped ([`PropBag::out_of_bounds`]).
    pub fn parse(index: &[u8], props: &[u8]) -> (r: Self)
        ensures
            r@ == spec_parse_bag(index@, props@),
    {
        let ilen = index.len();
        let records = ilen / BAG_INDEX_RECORD_LEN;
        let trailing_bytes = ilen % BAG_INDEX_RECORD_LEN;
        assert(records * 16 <= ilen) by (nonlinear_arith)
            requires
                records == ilen / 16,
        ;
        let mut entries: Vec<BagEntry> = Vec::new();
        let mut out_of_bounds: usize = 0;
        let mut tiled_pairs: usize = 0;
        let mut i: usize = 0;
        let mut prev_offset: u32 = 0;
        let mut prev_size: u32 = 0;
        while i < records
            invariant
                records == index@.len() / 16,
                records * 16 <= index@.len(),
                i <= records,
                out_of_bounds <= i,
                tiled_pairs <= i,
                i > 0 ==> prev_offset == index_word(index@, i - 1, 2) && prev_size == index_word(
                    index@,
                    i - 1,
                    3,
                ),
                scan_bag(index@, props@, i as int) == (
                    entries_view(entries@),
                    out_of_bounds as nat,
                    tiled_pairs as nat,
                ),
            decreases records - i,
        {
            assert((i + 1) * 16 <= records * 16) by (nonlinear_arith)
                requires
                    i < records,
            ;
            let (a, b, offset, size) = read_index_record(index, i);
            if i > 0 && (prev_offset as u64) + (prev_size as u64) == offset as u64 {
                tiled_pairs = tiled_pairs + 1;
            }
            prev_offset = offset;
            prev_size = size;
            let ghost before = entries_view(entries@);
            match entry_at(props, a, b, offset, size) {
                Some(e) => {
                    entries.push(e);
                    assert(entries_view(entries@) =~= before.push(e@));
                },
                None => {
                    out_of_bounds = out_of_bounds + 1;
                },
            }
            i = i + 1;
        }
        PropBag {
            entries,
            records,
            trailing_bytes,
            out_of_bounds,
            tiled_pairs,
            adjacent_pairs: if records > 0 {
                records - 1
            } else {
                0
            },
            props_bytes: props.len(),
        }
    }

    /// The entries whose blobs were in bounds, in index order.
    pub fn entries(&self) -> (r: &[BagEntry])
        ensures
            entries_view(r@) == self@.entries,
    {
        self.entries.as_slice()
    }

    /// Number of usable entries.
    pub fn len(&self) -> (r: usize)
        ensures
            r == self@.entries.len(),
    {
        self.entries.len()
    }

    /// Whether the bag has no usable entries.
    pub fn is_empty(&self) -> (r: bool)
        ensures
            r == (self@.entries.len() == 0),
    {
        self.entries.len() == 0
    }

    /// Complete 16-byte records found in `.pids`.
    pub fn records(&self) -> (r: usize)
        ensures
            r == self@.records,
    {
        self.records
    }

    /// Bytes left over in `.pids` after the last complete record.
    pub fn trailing_bytes(&self) -> (r: usize)
        ensures
            r == self@.trailing_bytes,
    {
        self.trailing_bytes
    }

    /// Records dropped because `offset + size` ran past `.props`.
    pub fn out_of_bounds(&self) -> (r: usize)
        ensures
            r == self@.out_of_bounds,
    {
        self.out_of_bounds
    }

    /// Size of the `.props` file this bag was parsed from.
    pub fn props_bytes(&self) -> (r: usize)
        ensures
            r == self@.props_bytes,
    {
        self.props_bytes
    }

    /// Adjacent record pairs satisfying `offset[i] + size[i] == offset[i+1]`.
    pub fn tiled_pairs(&self) -> (r: usize)
        ensures
            r == self@.tiled_pairs,
    {
        self.tiled_pairs
    }

    /// Adjacent record pairs in total.
    pub fn adjacent_pairs(&self) -> (r: usize)
        ensures
            r == self@.adjacent_pairs,
    {
        self.adjacent_pairs
    }

    /// Whether the blobs tile `.props` with no gaps or overlaps.
    pub fn is_contiguous(&self) -> (r: bool)
        ensures
            r == (self@.tiled_pairs == self@.adjacent_pairs),
    {
        self.tiled_pairs == self.adjacent_pairs
    }

    /// The entry with identity pair `(a, b)`, if the bag has one.
    pub fn find(&self, a: u32, b: u32) -> (r: Option<&BagEntry>)
        ensures
            match find_entry(self@.entries, a, b, 0) {
                Some(i) => r matches Some(e) && e@ == self@.entries[i],
                None => r is None,
            },
    {
        let ghost ev = self@.entries;
        let mut i: usize = 0;
        while i < self.entries.len()
            invariant
                i <= self.entries@.len(),
                ev == entries_view(self.entries@),
                find_entry(ev, a, b, 0) == find_entry(ev, a, b, i as int),
            decreases self.entries@.len() - i,
        {
            if self.entries[i].a == a && self.entries[i].b == b {
                return Some(&self.entries[i]);
            }
            i = i + 1;
        }
        None
    }
}

} // verus!
