//! The `.prp` prop-roster container: the typed data model, its reader, its
//! literal writer and the mutations that repack it.
//!
//! ```text
//! AssetFileHeader (16)   data region (blobs)   asset map (types + recs + names)
//! ```
//!
//! A blob lives at file offset `FILE_HEADER_LEN + record.data_offset`, and the
//! record's `crc` is over the payload after the blob's 12-byte header.
//!
//! Identity is `(id, crc)`, never `id` alone: duplicate ids are legal.

use vstd::prelude::*;

pub mod model;
pub mod mutate;
pub mod read;
pub mod record;
pub mod round_trip;
pub mod write;

pub use model::{AssetFileHeader, AssetMapHeader, AssetRec, AssetType, AssetTypeRec, FILE_HEADER_LEN};
pub use record::{PropEncoding, PropHeader, PropKey, PropRecord, RecordView, PROP_HEADER_LEN};

use crate::error::PropError;

verus! {

/// A parsed `.prp` file: the file header, the map header, the type table, the
/// records, the resolved names and the raw data region.
#[derive(Debug, Clone, PartialEq, Eq)]
pub struct Roster {
    file: AssetFileHeader,
    map: AssetMapHeader,
    types: Vec<AssetTypeRec>,
    records: Vec<PropRecord>,
    names: Vec<(u32, String)>,
    data: Vec<u8>,
    dropped: usize,
}

/// The abstract content of a roster.
pub struct RosterView {
    /// The 16-byte file header.
    pub file: AssetFileHeader,
    /// The 24-byte map header.
    pub map: AssetMapHeader,
    /// The type table.
    pub types: Seq<AssetTypeRec>,
    /// The records, in file order.
    pub records: Seq<RecordView>,
    /// The names as `(byte offset in the names blob, name)`, in blob order.
    pub names: Seq<(u32, Seq<char>)>,
    /// The raw data region, gaps between blobs included.
    pub data: Seq<u8>,
    /// Records dropped because their blob fell outside the data region.
    pub dropped: nat,
}

impl View for Roster {
    type V = RosterView;

    closed spec fn view(&self) -> RosterView {
        RosterView {
            file: self.file,
            map: self.map,
            types: self.types@,
            records: read::records_view(self.records@),
            names: read::names_view(self.names@),
            data: self.data@,
            dropped: self.dropped as nat,
        }
    }
}

impl Roster {
    /// Serialise this roster back to bytes, preserving it literally.
    ///
    /// The data region (gaps between blobs included), every record field, the
    /// type table and the names are carried through as they were read; the
    /// stored `crc` is not recomputed. The result satisfies
    /// `filesize == assetMapOffset + assetMapSize`. A roster whose layout
    /// cannot be addressed in memory is refused.
    pub fn write(&self) -> (r: Result<Vec<u8>, PropError>)
        ensures
            write::layout_fits(self@) ==> (r matches Ok(bytes) && bytes@ == write::spec_serialize(
                self@,
            )),
            !write::layout_fits(self@) ==> r matches Err(PropError::BagIo { .. }),
    {
        write::serialize(self)
    }

    /// Parse a complete `.prp` file from its bytes.
    ///
    /// Tolerant by design: the header counts are trusted, trailing bytes after
    /// the map are ignored, and a record whose blob falls outside the data region
    /// is dropped (see [`Self::dropped_records`]) rather than failing the parse.
    /// A file shorter than its own header claims is an error, never a panic.
    pub fn parse(buf: &[u8]) -> (r: Result<Self, PropError>)
        ensures
            match read::spec_parse_roster(buf@) {
                Some(v) => r matches Ok(ro) && ro@ == v,
                None => if buf@.len() < FILE_HEADER_LEN {
                    r == Err::<Self, PropError>(
                        PropError::HeaderTooShort { available: buf@.len() as usize },
                    )
                } else {
                    r matches Err(PropError::BagIo { .. })
                },
            },
    {
        read::parse(buf)
    }

    /// Sort each type's records by signed `id` and repack the data region
    /// contiguously, producing the canonical form the server's binary search
    /// requires.
    ///
    /// The sort is stable, so records that share an id stay adjacent and keep
    /// their original relative order. Nothing is dropped or deduplicated, and
    /// every CRC is recomputed.
    pub fn canonicalise(&mut self)
        ensures
            mutate::finished_as(final(self)@, mutate::spec_canonicalise(old(self)@)),
    {
        mutate::canonicalise(self);
    }

    /// Every record, in file order.
    pub fn records(&self) -> (r: &[PropRecord])
        ensures
            read::records_view(r@) == self@.records,
    {
        self.records.as_slice()
    }

    /// The type table, one [`AssetTypeRec`] per type.
    pub fn types(&self) -> (r: &[AssetTypeRec])
        ensures
            r@ == self@.types,
    {
        self.types.as_slice()
    }

    /// Names as `(byte offset in the names blob, name)`, in blob order.
    pub fn names(&self) -> (r: &[(u32, String)])
        ensures
            read::names_view(r@) == self@.names,
    {
        self.names.as_slice()
    }

    /// How many records were dropped because their blob slice fell outside
    /// the data region. A non-zero count signals a lossy parse.
    pub fn dropped_records(&self) -> (r: usize)
        ensures
            r == self@.dropped,
    {
        self.dropped
    }

    /// The 16-byte file header.
    pub fn file_header(&self) -> (r: &AssetFileHeader)
        ensures
            *r == self@.file,
    {
        &self.file
    }

    /// The 24-byte map header.
    pub fn map_header(&self) -> (r: &AssetMapHeader)
        ensures
            *r == self@.map,
    {
        &self.map
    }

    /// Find a record by its exact identity `(id, crc)`; a `crc` of 0 does not
    /// match anything but a stored 0.
    pub fn record_for(&self, key: PropKey) -> (r: Option<&PropRecord>)
        ensures
            match mutate::key_index(self@.records, key, 0) {
                Some(i) => r matches Some(p) && p@ == self@.records[i],
                None => r is None,
            },
    {
        match mutate::record_index(self, key) {
            Some(i) => Some(&self.records[i]),
            None => None,
        }
    }

    /// The raw blob of the record with this exact identity, if any.
    pub fn blob_for(&self, key: PropKey) -> (r: Option<&[u8]>)
        ensures
            match mutate::key_index(self@.records, key, 0) {
                Some(i) => r matches Some(b) && b@ == self@.records[i].blob,
                None => r is None,
            },
    {
        match mutate::record_index(self, key) {
            Some(i) => Some(self.records[i].blob.as_slice()),
            None => None,
        }
    }

    /// Number of records.
    pub fn len(&self) -> (r: usize)
        ensures
            r == self@.records.len(),
    {
        self.records.len()
    }

    /// Whether there are no records.
    pub fn is_empty(&self) -> (r: bool)
        ensures
            r == (self@.records.len() == 0),
    {
        self.records.len() == 0
    }

    /// Insert a record into the `Prop` type, next to any records sharing its
    /// id. Sizes, CRCs, names and the data region are recomputed; duplicate
    /// ids are expected, not merged.
    pub fn add_prop(&mut self, record: PropRecord)
        ensures
            mutate::finished_as(
                final(self)@,
                mutate::spec_add_typed(old(self)@, record@, AssetType::Prop),
            ),
    {
        mutate::add_typed(self, record, AssetType::Prop);
    }

    /// Insert a record into the `Fave` type, creating that type when it is
    /// absent. The favourites record lives there, never in `Prop`, because
    /// the server validates only `Prop`.
    pub fn add_fave(&mut self, record: PropRecord)
        ensures
            mutate::finished_as(
                final(self)@,
                mutate::spec_add_typed(old(self)@, record@, AssetType::Fave),
            ),
    {
        mutate::add_typed(self, record, AssetType::Fave);
    }

    /// Remove and return the record with this exact identity, if present.
    pub fn remove_prop(&mut self, key: PropKey) -> (r: Option<PropRecord>)
        ensures
            match mutate::key_index(old(self)@.records, key, 0) {
                None => r is None && final(self)@ == old(self)@,
                Some(i) => r matches Some(p) && p@ == old(self)@.records[i] && mutate::finished_as(
                    final(self)@,
                    mutate::spec_remove_at(old(self)@, i),
                ),
            },
    {
        mutate::remove_prop(self, key)
    }
}

} // verus!
