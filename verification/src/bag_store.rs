//! Bag store decisions: what each operation on My Bag does to its roster.
//!
//! The bag folder has one writable collection ("My Bag") and read-only shelves.
//! Every mutation is parse → mutate → write through [`Roster`]: the caller
//! reads the collection's current bytes (none when the file is missing) under
//! its writer lock, hands them in, and writes back the bytes an operation
//! returns. A refused or no-op operation returns no bytes, so the file stays
//! exactly as it was.
//!
//! Only `My Bag.prp` is writable; a shelf, an unowned path or protected
//! PalaceChat data is refused before any file is touched. A prop is identified
//! by `(id, crc)`: adding a key that already exists is a no-op reported as
//! [`WriteOutcome::AlreadyPresent`], and the same id with another crc is a
//! legal variant.

use vstd::prelude::*;

use crate::bag_folder::{refusal, spec_classify, opt_str, BagContext, BagRole, BAG_FILE_NAME};
use crate::codec::thirtytwo::slice_to_vec;
use crate::crc::{asset_crc, spec_asset_crc};
use crate::error::PropError;
use crate::prp::mutate::{
    finished_as, key_index, spec_add_typed, spec_remove_at, copy_record,
};
use crate::prp::read::spec_parse_roster;
use crate::prp::record::{spec_blob_encoding, spec_blob_header};
use crate::prp::write::{layout_fits, spec_serialize};
use crate::prp::{
    AssetRec, AssetType, PropHeader, PropKey, PropRecord, RecordView, Roster, RosterView,
    PROP_HEADER_LEN,
};
use crate::text::{push_str, str_eq, trim, trimmed};

verus! {

/// A valid, empty `.prp`: the 16-byte file header, the 24-byte map header and
/// one `Prop` type record with zero assets.
pub const EMPTY_ROSTER: [u8; 52] = [
    0x10, 0x00, 0x00, 0x00, 0x00, 0x00, 0x00, 0x00, 0x10, 0x00, 0x00, 0x00, 0x24, 0x00, 0x00, 0x00,
    0x01, 0x00, 0x00, 0x00, 0x00, 0x00, 0x00, 0x00, 0x00, 0x00, 0x00, 0x00, 0x18, 0x00, 0x00, 0x00,
    0x24, 0x00, 0x00, 0x00, 0x24, 0x00, 0x00, 0x00, 0x70, 0x6f, 0x72, 0x50, 0x00, 0x00, 0x00, 0x00,
    0x00, 0x00, 0x00, 0x00,
];

/// One collection in the bag folder.
#[derive(Debug, Clone, PartialEq, Eq)]
pub struct Collection {
    /// The collection's file path.
    pub path: String,
    /// The display name: the file stem without `.prp`.
    pub name: String,
    /// The role the folder guard assigns this path.
    pub role: BagRole,
    /// Whether the file currently exists.
    pub exists: bool,
}

impl Collection {
    /// Whether the store may mutate this collection: true only for My Bag.
    pub fn is_writable(&self) -> (r: bool)
        ensures
            r == (self.role == BagRole::MyBag),
    {
        self.role == BagRole::MyBag
    }
}

/// What a store operation did.
#[derive(Debug, Clone, Copy, PartialEq, Eq, Structural)]
pub enum WriteOutcome {
    /// The prop was written.
    Added,
    /// The exact `(id, crc)` already existed; nothing was written.
    AlreadyPresent,
    /// The prop was removed.
    Removed,
    /// The record's name was changed.
    Renamed,
    /// The prop was copied into the destination.
    Duplicated,
    /// The prop was moved between collections.
    Moved,
    /// A collection was created.
    Created,
    /// A collection was deleted.
    Deleted,
    /// The request was valid but changed nothing.
    Unchanged,
    /// The addressed record or collection did not exist.
    NotFound,
    /// The collection already existed.
    AlreadyExists,
}

/// Whether an outcome changed a file.
pub open spec fn spec_changed(o: WriteOutcome) -> bool {
    match o {
        WriteOutcome::Added | WriteOutcome::Removed | WriteOutcome::Renamed
        | WriteOutcome::Duplicated | WriteOutcome::Moved | WriteOutcome::Created
        | WriteOutcome::Deleted => true,
        _ => false,
    }
}

impl WriteOutcome {
    /// Whether the file changed on disk.
    pub fn changed(self) -> (r: bool)
        ensures
            r == spec_changed(self),
    {
        match self {
            WriteOutcome::Added | WriteOutcome::Removed | WriteOutcome::Renamed
            | WriteOutcome::Duplicated | WriteOutcome::Moved | WriteOutcome::Created
            | WriteOutcome::Deleted => true,
            _ => false,
        }
    }
}

/// The last component of a path text, trailing separators ignored.
pub open spec fn last_component(path: Seq<char>) -> Seq<char>
    decreases path.len(),
{
    if path.len() == 0 {
        Seq::empty()
    } else if path.last() == '/' {
        last_component(path.drop_last())
    } else {
        tail_piece(path)
    }
}

/// The characters after the last separator.
pub open spec fn tail_piece(path: Seq<char>) -> Seq<char>
    decreases path.len(),
{
    if path.len() == 0 || path.last() == '/' {
        Seq::empty()
    } else {
        tail_piece(path.drop_last()).push(path.last())
    }
}

/// The characters after the last separator of a text.
fn tail_of(path: &str, end: usize) -> (r: String)
    requires
        end <= path@.len(),
    ensures
        r@ == tail_piece(path@.subrange(0, end as int)),
{
    let mut start = end;
    while start > 0 && path.get_char(start - 1) != '/'
        invariant
            start <= end <= path@.len(),
            tail_piece(path@.subrange(0, end as int)) == tail_piece(
                path@.subrange(0, start as int),
            ) + path@.subrange(start as int, end as int),
        decreases start,
    {
        proof {
            let pre = path@.subrange(0, start as int);
            assert(pre.drop_last() =~= path@.subrange(0, start as int - 1));
            assert(path@.subrange(start as int - 1, end as int) =~= seq![pre.last()]
                + path@.subrange(start as int, end as int));
            assert(tail_piece(pre) == tail_piece(pre.drop_last()).push(pre.last()));
            assert(tail_piece(pre.drop_last()).push(pre.last()) + path@.subrange(
                start as int,
                end as int,
            ) =~= tail_piece(pre.drop_last()) + path@.subrange(start as int - 1, end as int));
        }
        start = start - 1;
    }
    let mut out = String::new();
    let mut i = start;
    while i < end
        invariant
            start <= i <= end,
            end <= path@.len(),
            out@ == path@.subrange(start as int, i as int),
        decreases end - i,
    {
        crate::text::push_char(&mut out, path.get_char(i));
        i = i + 1;
        assert(out@ =~= path@.subrange(start as int, i as int));
    }
    proof {
        assert(tail_piece(path@.subrange(0, start as int)) == Seq::<char>::empty());
        assert(Seq::<char>::empty() + path@.subrange(start as int, end as int) =~= path@.subrange(
            start as int,
            end as int,
        ));
    }
    out
}

/// The file-name component of a path: its last component, trailing
/// separators ignored; empty when there is none.
pub fn file_name_of(path: &str) -> (r: String)
    ensures
        r@ == last_component(path@),
{
    let n = path.unicode_len();
    let mut end = n;
    assert(path@.subrange(0, n as int) =~= path@);
    while end > 0 && path.get_char(end - 1) == '/'
        invariant
            end <= n,
            n == path@.len(),
            last_component(path@) == last_component(path@.subrange(0, end as int)),
        decreases end,
    {
        proof {
            let pre = path@.subrange(0, end as int);
            assert(pre.drop_last() =~= path@.subrange(0, end as int - 1));
        }
        end = end - 1;
    }
    tail_of(path, end)
}

/// Refuse everything that is not the one writable prop collection.
pub open spec fn writable(ctx: BagContext, path: Seq<char>) -> bool {
    spec_classify(path, opt_str(ctx.bag_root), opt_str(ctx.home)) == BagRole::MyBag
        && last_component(path) == BAG_FILE_NAME@
}

/// The name a caller supplied, trimmed; `None` stays `None` and an empty
/// name is refused.
pub open spec fn spec_clean_name(name: Option<Seq<char>>) -> Option<Option<Seq<char>>> {
    match name {
        None => Some(None),
        Some(n) => if trimmed(n).len() == 0 {
            None
        } else {
            Some(Some(trimmed(n)))
        },
    }
}

/// An optional text slice by view.
pub open spec fn opt_text_of(s: Option<&str>) -> Option<Seq<char>> {
    match s {
        Some(t) => Some(t@),
        None => None,
    }
}

/// Trim a caller-supplied name; `None` stays `None`, an empty name is refused.
pub fn clean_name(name: Option<&str>) -> (r: Result<Option<String>, PropError>)
    ensures
        match spec_clean_name(opt_text_of(name)) {
            None => r matches Err(PropError::BagIo { .. }),
            Some(c) => r matches Ok(o) && opt_str(o) == c,
        },
{
    match name {
        None => Ok(None),
        Some(n) => {
            let t = trim(n);
            if t.unicode_len() == 0 {
                Err(PropError::BagIo { detail: String::from_str("bag store: a prop name must not be empty") })
            } else {
                Ok(Some(t))
            }
        },
    }
}

/// The record the store builds from its inputs.
pub open spec fn built_record(id: i32, crc: u32, blob: Seq<u8>, name: Option<Seq<char>>) -> RecordView {
    RecordView {
        rec: AssetRec {
            id,
            r_handle: 0,
            data_offset: 0,
            data_size: blob.len() as u32,
            last_use_time: 0,
            name_offset: -1i32,
            flags: 0,
            crc,
        },
        header: spec_blob_header(blob),
        encoding: spec_blob_encoding(blob),
        blob,
        name,
    }
}

/// Build a [`PropRecord`] from the store's inputs; a blob shorter than the
/// 12-byte header is refused.
pub fn build_record(id: i32, crc: u32, blob: &[u8], name: Option<&str>) -> (r: Result<
    PropRecord,
    PropError,
>)
    ensures
        blob@.len() < PROP_HEADER_LEN ==> r matches Err(PropError::BagIo { .. }),
        blob@.len() >= PROP_HEADER_LEN ==> (r matches Ok(rec) && rec@ == built_record(
            id,
            crc,
            blob@,
            opt_text_of(name),
        )),
{
    if blob.len() < PROP_HEADER_LEN {
        return Err(PropError::BagIo { detail: String::from_str("a prop blob needs at least 12 bytes of header") });
    }
    let header = match PropHeader::parse(blob) {
        Ok(h) => Some(h),
        Err(_) => None,
    };
    let encoding = match header {
        Some(h) => Some(h.encoding()),
        None => None,
    };
    let name = match name {
        Some(n) => Some(String::from_str(n)),
        None => None,
    };
    Ok(
        PropRecord {
            rec: AssetRec {
                id,
                r_handle: 0,
                data_offset: 0,
                data_size: blob.len() as u32,
                last_use_time: 0,
                name_offset: -1,
                flags: 0,
                crc,
            },
            header,
            encoding,
            blob: slice_to_vec(blob),
            name,
        },
    )
}

/// The roster a collection's current bytes hold: the empty roster when the
/// file is missing.
pub open spec fn loaded(current: Option<Seq<u8>>) -> Option<RosterView> {
    match current {
        Some(b) => spec_parse_roster(b),
        None => spec_parse_roster(EMPTY_ROSTER@),
    }
}

/// An optional byte slice by view.
pub open spec fn opt_bytes(b: Option<&[u8]>) -> Option<Seq<u8>> {
    match b {
        Some(s) => Some(s@),
        None => None,
    }
}

/// Parse a collection's current bytes, or the empty roster when it is missing.
pub fn load_or_empty(current: Option<&[u8]>) -> (r: Result<Roster, PropError>)
    ensures
        match loaded(opt_bytes(current)) {
            Some(v) => r matches Ok(ro) && ro@ == v,
            None => r is Err,
        },
{
    match current {
        Some(b) => Roster::parse(b),
        None => {
            let empty = EMPTY_ROSTER;
            Roster::parse(empty.as_slice())
        },
    }
}

/// The bytes written for a changed roster, when its layout fits.
pub open spec fn written(v: RosterView) -> Option<Seq<u8>> {
    if layout_fits(v) {
        Some(spec_serialize(v))
    } else {
        None
    }
}

/// Serialise a mutated roster for writing.
fn bytes_for(roster: &Roster, Ghost(expected): Ghost<RosterView>) -> (r: Result<Vec<u8>, PropError>)
    requires
        finished_as(roster@, expected),
    ensures
        match written(expected) {
            Some(b) => r matches Ok(bytes) && bytes@ == b,
            None => r matches Err(PropError::BagIo { .. }),
        },
{
    proof {
        if !layout_fits(expected) {
            assert(roster@.data == expected.data && roster@.types == expected.types
                && roster@.records == expected.records && roster@.names == expected.names);
        }
    }
    roster.write()
}

/// The outcome of an operation that changes one collection: the outcome and
/// the bytes to write, if any.
pub type Change = (WriteOutcome, Option<Vec<u8>>);

/// The bag store: the bag folder's one writer.
#[derive(Debug, Clone)]
pub struct BagStore {
    context: BagContext,
}

impl BagStore {
    /// Build a store over an explicit bag context.
    pub fn open(context: BagContext) -> (r: Self)
        ensures
            r.ctx() == context,
    {
        BagStore { context }
    }

    /// The context (bag root plus home) this store writes through.
    pub fn context(&self) -> (r: &BagContext)
        ensures
            *r == self.ctx(),
    {
        &self.context
    }

    /// The store's context as a value, for contracts.
    pub closed spec fn ctx(&self) -> BagContext {
        self.context
    }

    /// Refuse everything that is not the one writable prop collection.
    pub fn writable_collection(&self, path: &str) -> (r: Result<(), PropError>)
        ensures
            writable(self.ctx(), path@) ==> r is Ok,
            !writable(self.ctx(), path@) ==> r matches Err(PropError::BagIo { .. }),
    {
        let role = self.context.classify(path);
        if role != BagRole::MyBag {
            return Err(refusal(path, role));
        }
        let name = file_name_of(path);
        if !str_eq(name.as_str(), BAG_FILE_NAME) {
            let mut detail = String::from_str(path);
            push_str(&mut detail, ": only the \"My Bag.prp\" collection is writable by the bag store");
            return Err(PropError::BagIo { detail });
        }
        Ok(())
    }

    /// Check an add before any file is touched: the collection must be
    /// writable, the blob must carry a header, `crc` must be its payload CRC
    /// and a given name must not be empty. Returns the cleaned name.
    pub fn validate_add(&self, collection: &str, crc: u32, blob: &[u8], name: Option<&str>) -> (r:
        Result<Option<String>, PropError>)
        ensures
            r is Ok <==> (writable(self.ctx(), collection@) && blob@.len() >= PROP_HEADER_LEN
                && spec_asset_crc(blob@.subrange(PROP_HEADER_LEN as int, blob@.len() as int))
                == crc && spec_clean_name(opt_text_of(name)) is Some),
            r matches Ok(o) ==> spec_clean_name(opt_text_of(name)) == Some(opt_str(o)),
    {
        match self.writable_collection(collection) {
            Err(e) => {
                return Err(e);
            },
            Ok(()) => {},
        }
        let n = blob.len();
        if n < PROP_HEADER_LEN {
            return Err(PropError::BagIo { detail: String::from_str("a prop blob needs at least 12 bytes of header") });
        }
        let computed = asset_crc(&blob[PROP_HEADER_LEN..n]);
        if computed != crc {
            return Err(PropError::BagIo { detail: String::from_str("the crc does not match the blob's payload crc") });
        }
        clean_name(name)
    }

    /// Add a prop to My Bag, given the collection's current bytes.
    ///
    /// An `(id, crc)` already present is a no-op reported as
    /// [`WriteOutcome::AlreadyPresent`]; otherwise the prop joins the `Prop`
    /// run and the new bytes are returned.
    pub fn add_prop(
        &self,
        collection: &str,
        id: i32,
        crc: u32,
        blob: &[u8],
        name: Option<&str>,
        current: Option<&[u8]>,
    ) -> (r: Result<Change, PropError>)
        ensures
            !(writable(self.ctx(), collection@) && blob@.len() >= PROP_HEADER_LEN && spec_asset_crc(
                blob@.subrange(PROP_HEADER_LEN as int, blob@.len() as int),
            ) == crc && spec_clean_name(opt_text_of(name)) is Some) ==> r is Err,
            (writable(self.ctx(), collection@) && blob@.len() >= PROP_HEADER_LEN && spec_asset_crc(
                blob@.subrange(PROP_HEADER_LEN as int, blob@.len() as int),
            ) == crc && spec_clean_name(opt_text_of(name)) is Some) ==> match loaded(
                opt_bytes(current),
            ) {
                None => r is Err,
                Some(v) => if key_index(v.records, PropKey { id, crc }, 0) is Some {
                    r matches Ok((WriteOutcome::AlreadyPresent, None))
                } else {
                    match written(
                        spec_add_typed(
                            v,
                            built_record(id, crc, blob@, spec_clean_name(opt_text_of(name))->Some_0),
                            AssetType::Prop,
                        ),
                    ) {
                        Some(b) => r matches Ok((WriteOutcome::Added, Some(bytes))) && bytes@ == b,
                        None => r is Err,
                    }
                },
            },
    {
        let cleaned = match self.validate_add(collection, crc, blob, name) {
            Ok(c) => c,
            Err(e) => {
                return Err(e);
            },
        };
        let mut roster = match load_or_empty(current) {
            Ok(r) => r,
            Err(e) => {
                return Err(e);
            },
        };
        let key = PropKey::new(id, crc);
        if roster.record_for(key).is_some() {
            return Ok((WriteOutcome::AlreadyPresent, None));
        }
        let record = match &cleaned {
            Some(c) => build_record(id, crc, blob, Some(c.as_str())),
            None => build_record(id, crc, blob, None),
        };
        let record = match record {
            Ok(r) => r,
            Err(e) => {
                return Err(e);
            },
        };
        let ghost v = roster@;
        let ghost rv = record@;
        roster.add_prop(record);
        match bytes_for(&roster, Ghost(spec_add_typed(v, rv, AssetType::Prop))) {
            Ok(bytes) => Ok((WriteOutcome::Added, Some(bytes))),
            Err(e) => Err(e),
        }
    }

    /// Remove the record with the exact identity `key` from My Bag, given the
    /// collection's current bytes. [`WriteOutcome::NotFound`] leaves the file
    /// untouched.
    pub fn remove_prop(&self, collection: &str, key: PropKey, current: Option<&[u8]>) -> (r:
        Result<Change, PropError>)
        ensures
            !writable(self.ctx(), collection@) ==> r is Err,
            writable(self.ctx(), collection@) ==> match loaded(opt_bytes(current)) {
                None => r is Err,
                Some(v) => match key_index(v.records, key, 0) {
                    None => r matches Ok((WriteOutcome::NotFound, None)),
                    Some(i) => match written(spec_remove_at(v, i)) {
                        Some(b) => r matches Ok((WriteOutcome::Removed, Some(bytes))) && bytes@
                            == b,
                        None => r is Err,
                    },
                },
            },
    {
        match self.writable_collection(collection) {
            Err(e) => {
                return Err(e);
            },
            Ok(()) => {},
        }
        let mut roster = match load_or_empty(current) {
            Ok(r) => r,
            Err(e) => {
                return Err(e);
            },
        };
        let ghost v = roster@;
        match roster.remove_prop(key) {
            None => Ok((WriteOutcome::NotFound, None)),
            Some(_) => {
                let ghost i = key_index(v.records, key, 0)->Some_0;
                match bytes_for(&roster, Ghost(spec_remove_at(v, i))) {
                    Ok(bytes) => Ok((WriteOutcome::Removed, Some(bytes))),
                    Err(e) => Err(e),
                }
            },
        }
    }

    /// Create My Bag as an empty but valid `.prp`. An existing file is
    /// reported as [`WriteOutcome::AlreadyExists`] and left untouched.
    pub fn create_collection(&self, collection: &str, exists: bool) -> (r: Result<Change, PropError>)
        ensures
            !writable(self.ctx(), collection@) ==> r is Err,
            writable(self.ctx(), collection@) && exists ==> r matches Ok(
                (WriteOutcome::AlreadyExists, None),
            ),
            writable(self.ctx(), collection@) && !exists ==> (r matches Ok(
                (WriteOutcome::Created, Some(bytes)),
            ) && bytes@ == EMPTY_ROSTER@),
    {
        match self.writable_collection(collection) {
            Err(e) => {
                return Err(e);
            },
            Ok(()) => {},
        }
        if exists {
            return Ok((WriteOutcome::AlreadyExists, None));
        }
        let empty = EMPTY_ROSTER;
        Ok((WriteOutcome::Created, Some(slice_to_vec(empty.as_slice()))))
    }

    /// Delete My Bag. A missing file reports [`WriteOutcome::NotFound`]; the
    /// caller removes the file on [`WriteOutcome::Deleted`].
    pub fn delete_collection(&self, collection: &str, exists: bool) -> (r: Result<
        WriteOutcome,
        PropError,
    >)
        ensures
            !writable(self.ctx(), collection@) ==> r is Err,
            writable(self.ctx(), collection@) ==> r == Ok::<WriteOutcome, PropError>(
                if exists {
                    WriteOutcome::Deleted
                } else {
                    WriteOutcome::NotFound
                },
            ),
    {
        match self.writable_collection(collection) {
            Err(e) => {
                return Err(e);
            },
            Ok(()) => {},
        }
        if exists {
            Ok(WriteOutcome::Deleted)
        } else {
            Ok(WriteOutcome::NotFound)
        }
    }

    /// Set (or with `None`, clear) the name of the record `key` in My Bag,
    /// given the collection's current bytes. Renaming to the name it already
    /// has reports [`WriteOutcome::Unchanged`] and writes nothing.
    pub fn rename_prop(
        &self,
        collection: &str,
        key: PropKey,
        name: Option<&str>,
        current: Option<&[u8]>,
    ) -> (r: Result<Change, PropError>)
        ensures
            !(writable(self.ctx(), collection@) && spec_clean_name(opt_text_of(name)) is Some)
                ==> r is Err,
            (writable(self.ctx(), collection@) && spec_clean_name(opt_text_of(name)) is Some)
                ==> match loaded(opt_bytes(current)) {
                None => r is Err,
                Some(v) => match key_index(v.records, key, 0) {
                    None => r matches Ok((WriteOutcome::NotFound, None)),
                    Some(i) => if v.records[i].name == spec_clean_name(
                        opt_text_of(name),
                    )->Some_0 {
                        r matches Ok((WriteOutcome::Unchanged, None))
                    } else {
                        match written(
                            spec_add_typed(
                                spec_remove_at(v, i),
                                renamed(v.records[i], spec_clean_name(opt_text_of(name))->Some_0),
                                AssetType::Prop,
                            ),
                        ) {
                            Some(b) => r matches Ok((WriteOutcome::Renamed, Some(bytes)))
                                && bytes@ == b,
                            None => r is Err,
                        }
                    },
                },
            },
    {
        match self.writable_collection(collection) {
            Err(e) => {
                return Err(e);
            },
            Ok(()) => {},
        }
        let cleaned = match clean_name(name) {
            Ok(c) => c,
            Err(e) => {
                return Err(e);
            },
        };
        let mut roster = match load_or_empty(current) {
            Ok(r) => r,
            Err(e) => {
                return Err(e);
            },
        };
        let ghost v = roster@;
        let same = match roster.record_for(key) {
            None => {
                return Ok((WriteOutcome::NotFound, None));
            },
            Some(existing) => same_name(&existing.name, &cleaned),
        };
        if same {
            return Ok((WriteOutcome::Unchanged, None));
        }
        let mut record = match roster.remove_prop(key) {
            None => {
                return Ok((WriteOutcome::NotFound, None));
            },
            Some(r) => r,
        };
        let ghost i = key_index(v.records, key, 0)->Some_0;
        let ghost removed = roster@;
        record.name = cleaned;
        let ghost rv = record@;
        assert(rv == renamed(v.records[i], spec_clean_name(opt_text_of(name))->Some_0));
        roster.add_prop(record);
        proof {
            assert(spec_add_typed(removed, rv, AssetType::Prop) == spec_add_typed(
                spec_remove_at(v, i),
                rv,
                AssetType::Prop,
            ));
        }
        match bytes_for(&roster, Ghost(spec_add_typed(spec_remove_at(v, i), rv, AssetType::Prop))) {
            Ok(bytes) => Ok((WriteOutcome::Renamed, Some(bytes))),
            Err(e) => Err(e),
        }
    }

    /// Copy a prop from any readable collection into My Bag, given the
    /// source's bytes (`None` when it is not a file) and the destination's
    /// current bytes. `name` replaces the copy's name when given.
    pub fn duplicate_prop(
        &self,
        from: Option<&[u8]>,
        key: PropKey,
        to: &str,
        name: Option<&str>,
        to_current: Option<&[u8]>,
    ) -> (r: Result<Change, PropError>)
        ensures
            !(writable(self.ctx(), to@) && spec_clean_name(opt_text_of(name)) is Some) ==> r is Err,
            (writable(self.ctx(), to@) && spec_clean_name(opt_text_of(name)) is Some) ==> match from {
                None => r matches Ok((WriteOutcome::NotFound, None)),
                Some(bytes) => match spec_parse_roster(bytes@) {
                    None => r is Err,
                    Some(src) => match key_index(src.records, key, 0) {
                        None => r matches Ok((WriteOutcome::NotFound, None)),
                        Some(i) => match loaded(opt_bytes(to_current)) {
                            None => r is Err,
                            Some(v) => if key_index(v.records, key, 0) is Some {
                                r matches Ok((WriteOutcome::AlreadyPresent, None))
                            } else {
                                match written(
                                    spec_add_typed(
                                        v,
                                        named_copy(
                                            src.records[i],
                                            spec_clean_name(opt_text_of(name))->Some_0,
                                        ),
                                        AssetType::Prop,
                                    ),
                                ) {
                                    Some(b) => r matches Ok((WriteOutcome::Duplicated, Some(out)))
                                        && out@ == b,
                                    None => r is Err,
                                }
                            },
                        },
                    },
                },
            },
    {
        match self.writable_collection(to) {
            Err(e) => {
                return Err(e);
            },
            Ok(()) => {},
        }
        let cleaned = match clean_name(name) {
            Ok(c) => c,
            Err(e) => {
                return Err(e);
            },
        };
        let from = match from {
            None => {
                return Ok((WriteOutcome::NotFound, None));
            },
            Some(b) => b,
        };
        let source = match Roster::parse(from) {
            Ok(r) => r,
            Err(e) => {
                return Err(e);
            },
        };
        let mut copy = match source.record_for(key) {
            None => {
                return Ok((WriteOutcome::NotFound, None));
            },
            Some(rec) => copy_record(rec),
        };
        let mut destination = match load_or_empty(to_current) {
            Ok(r) => r,
            Err(e) => {
                return Err(e);
            },
        };
        if destination.record_for(key).is_some() {
            return Ok((WriteOutcome::AlreadyPresent, None));
        }
        if cleaned.is_some() {
            copy.name = cleaned;
        }
        let ghost v = destination@;
        let ghost rv = copy@;
        destination.add_prop(copy);
        match bytes_for(&destination, Ghost(spec_add_typed(v, rv, AssetType::Prop))) {
            Ok(bytes) => Ok((WriteOutcome::Duplicated, Some(bytes))),
            Err(e) => Err(e),
        }
    }

    /// Move a prop from one writable collection to another, given both
    /// collections' current bytes. The same file at both ends is
    /// [`WriteOutcome::Unchanged`]; a destination that already holds the key
    /// keeps the source intact ([`WriteOutcome::AlreadyPresent`]), so a move
    /// never drops an entry. On success the new bytes of the destination and
    /// of the source are returned, in that order.
    pub fn move_prop(
        &self,
        from: &str,
        to: &str,
        key: PropKey,
        same_target: bool,
        from_current: Option<&[u8]>,
        to_current: Option<&[u8]>,
    ) -> (r: Result<(WriteOutcome, Option<(Vec<u8>, Vec<u8>)>), PropError>)
        ensures
            !(writable(self.ctx(), from@) && writable(self.ctx(), to@)) ==> r is Err,
            (writable(self.ctx(), from@) && writable(self.ctx(), to@) && same_target) ==> r
                matches Ok((WriteOutcome::Unchanged, None)),
            (writable(self.ctx(), from@) && writable(self.ctx(), to@) && !same_target) ==> match loaded(
                opt_bytes(from_current),
            ) {
                None => r is Err,
                Some(src) => match key_index(src.records, key, 0) {
                    None => r matches Ok((WriteOutcome::NotFound, None)),
                    Some(i) => match loaded(opt_bytes(to_current)) {
                        None => r is Err,
                        Some(dst) => if key_index(dst.records, key, 0) is Some {
                            r matches Ok((WriteOutcome::AlreadyPresent, None))
                        } else {
                            match (
                                written(spec_add_typed(dst, src.records[i], AssetType::Prop)),
                                written(spec_remove_at(src, i)),
                            ) {
                                (Some(d), Some(s)) => r matches Ok(
                                    (WriteOutcome::Moved, Some((db, sb))),
                                ) && db@ == d && sb@ == s,
                                _ => r is Err,
                            }
                        },
                    },
                },
            },
    {
        match self.writable_collection(from) {
            Err(e) => {
                return Err(e);
            },
            Ok(()) => {},
        }
        match self.writable_collection(to) {
            Err(e) => {
                return Err(e);
            },
            Ok(()) => {},
        }
        if same_target {
            return Ok((WriteOutcome::Unchanged, None));
        }
        let mut source = match load_or_empty(from_current) {
            Ok(r) => r,
            Err(e) => {
                return Err(e);
            },
        };
        let ghost sv = source@;
        let record = match source.remove_prop(key) {
            None => {
                return Ok((WriteOutcome::NotFound, None));
            },
            Some(r) => r,
        };
        let ghost i = key_index(sv.records, key, 0)->Some_0;
        let mut destination = match load_or_empty(to_current) {
            Ok(r) => r,
            Err(e) => {
                return Err(e);
            },
        };
        if destination.record_for(key).is_some() {
            return Ok((WriteOutcome::AlreadyPresent, None));
        }
        let ghost dv = destination@;
        let ghost rv = record@;
        destination.add_prop(record);
        let dest_bytes = match bytes_for(&destination, Ghost(spec_add_typed(dv, rv, AssetType::Prop))) {
            Ok(b) => b,
            Err(e) => {
                return Err(e);
            },
        };
        let source_bytes = match bytes_for(&source, Ghost(spec_remove_at(sv, i))) {
            Ok(b) => b,
            Err(e) => {
                return Err(e);
            },
        };
        Ok((WriteOutcome::Moved, Some((dest_bytes, source_bytes))))
    }
}

/// A record with its name replaced.
pub open spec fn renamed(r: RecordView, name: Option<Seq<char>>) -> RecordView {
    RecordView { name, ..r }
}

/// A copied record: its name replaced when a new one is given.
pub open spec fn named_copy(r: RecordView, name: Option<Seq<char>>) -> RecordView {
    if name is Some {
        renamed(r, name)
    } else {
        r
    }
}

/// Whether a record's name equals a cleaned name.
fn same_name(existing: &Option<String>, cleaned: &Option<String>) -> (r: bool)
    ensures
        r == (opt_str(*existing) == opt_str(*cleaned)),
{
    match (existing, cleaned) {
        (Some(a), Some(b)) => *a == *b,
        (None, None) => true,
        _ => false,
    }
}

/// `<target file name>.lock`, beside the target; a path without a file name
/// is refused.
pub fn lock_path(target: &str) -> (r: Result<String, PropError>)
    ensures
        match crate::paths::spec_file_name(target@) {
            Some(n) => r matches Ok(p) && p@ == lock_text(target@),
            None => r matches Err(PropError::BagIo { .. }),
        },
{
    match crate::paths::file_name(target) {
        None => {
            let mut detail = String::from_str(target);
            push_str(&mut detail, ": not a file path");
            Err(PropError::BagIo { detail })
        },
        Some(_) => {
            let n = target.unicode_len();
            let mut end = n;
            assert(target@.subrange(0, n as int) =~= target@);
            while end > 0 && target.get_char(end - 1) == '/'
                invariant
                    end <= n,
                    n == target@.len(),
                    strip_slashes(target@) == strip_slashes(target@.subrange(0, end as int)),
                decreases end,
            {
                proof {
                    let pre = target@.subrange(0, end as int);
                    assert(pre.drop_last() =~= target@.subrange(0, end as int - 1));
                }
                end = end - 1;
            }
            let mut out = String::new();
            let mut i: usize = 0;
            while i < end
                invariant
                    i <= end,
                    end <= n,
                    n == target@.len(),
                    out@ == target@.subrange(0, i as int),
                decreases end - i,
            {
                crate::text::push_char(&mut out, target.get_char(i));
                i = i + 1;
                assert(out@ =~= target@.subrange(0, i as int));
            }
            push_str(&mut out, ".lock");
            Ok(out)
        },
    }
}

/// A path text with trailing separators removed.
pub open spec fn strip_slashes(s: Seq<char>) -> Seq<char>
    decreases s.len(),
{
    if s.len() > 0 && s.last() == '/' {
        strip_slashes(s.drop_last())
    } else {
        s
    }
}

/// The lock file's path for a target.
pub open spec fn lock_text(target: Seq<char>) -> Seq<char> {
    strip_slashes(target) + ".lock"@
}

/// The display name of a collection: its file stem, without `.prp`; empty
/// when the path has no file name.
pub fn display_name(path: &str) -> (r: String)
    ensures
        match crate::paths::spec_file_name(path@) {
            Some(n) => r@ == crate::paths::stem_of(n),
            None => r@ == Seq::<char>::empty(),
        },
{
    match crate::paths::file_stem(path) {
        Some(s) => s,
        None => String::new(),
    }
}

} // verus!
