//! Favourites (the `.prp` `Fave` record) and the trash store.
//!
//! Two stores that belong to the prop bag but not inside its prop set:
//!
//! * **Favourites** ride in the roster's `Fave` record: one record, id
//!   [`FAVE_RECORD_ID`], whose payload is an array of 8-byte `(id, crc)` specs,
//!   `id` little-endian `i32` then `crc` little-endian `u32`. Order is the
//!   user's and is kept; a repeated pair is stored once. The record's own `crc`
//!   field is not a payload CRC and is never validated.
//! * **Trash** is a small text document beside the bag, [`TRASH_FILE_NAME`]. A
//!   deleted prop is written there, blob and all, before it leaves the roster,
//!   so a delete is reversible and a restore is lossless. Each entry line is
//!   `<id> <crc> <name-hex|-> <blob-hex|->`; the store is bounded by
//!   [`MAX_TRASH_ENTRIES`] entries and [`MAX_TRASH_BYTES`] of blob data, oldest
//!   first out. Parsing never panics and never repairs: a corrupt document
//!   loads as an empty store plus a load error.
//!
//! The trash store decides; the caller performs the file I/O. A delete or a
//! restore is staged as a [`TrashChange`]: the caller writes its document and
//! only then commits it, so a failed write changes nothing.

use vstd::prelude::*;

use crate::bag_folder::{join, join_text, BagContext};
use crate::error::PropError;
use crate::prp::mutate::{finished_as, key_index, kind_of, spec_add_typed, spec_remove_at, type_bounds};
use crate::prp::read::{le_i32, le_u32, records_view};
use crate::prp::record::{opt_text, spec_blob_encoding, spec_blob_header};
use crate::prp::write::{i32_le, put_i32, put_u32, u32_le};
use crate::prp::{AssetRec, AssetType, AssetTypeRec, PropHeader, PropKey, PropRecord, RecordView, Roster, RosterView};
use crate::text::{push_char, push_str};
use crate::trash_doc::{copy_trash_entry, entries_view, parse_trash, render, spec_parse_trash, spec_render, EntryView};

pub use crate::trash_doc::TrashEntry;

verus! {

/// The `Fave` record's fixed id (`0x80`).
pub const FAVE_RECORD_ID: i32 = 128;

/// Bytes per favourite entry in the `Fave` payload: `i32` id + `u32` crc.
pub const FAVE_SPEC_LEN: usize = 8;

/// The trash document's file name in the bag root.
pub const TRASH_FILE_NAME: &'static str = "Trash.store";

/// The trash document's first token, so a wrong file is refused.
pub const TRASH_MAGIC: &'static str = "palace-prop-trash";

/// The only trash document version this build reads and writes.
pub const TRASH_VERSION: u32 = 1;

/// Most entries the trash keeps before the oldest are dropped.
pub const MAX_TRASH_ENTRIES: usize = 1024;

/// Most blob bytes a single trashed prop may carry.
pub const MAX_TRASH_BLOB_BYTES: usize = 16777216;

/// Most blob bytes the whole trash may carry.
pub const MAX_TRASH_BYTES: usize = 67108864;

// ---------------------------------------------------------------------------
// Favourites
// ---------------------------------------------------------------------------

/// No key occurs twice.
pub open spec fn distinct_keys(keys: Seq<PropKey>) -> bool {
    forall|i: int, j: int| 0 <= i < j < keys.len() ==> keys[i] != keys[j]
}

/// The 8 payload bytes of one favourite.
pub open spec fn key_bytes(k: PropKey) -> Seq<u8> {
    i32_le(k.id) + u32_le(k.crc)
}

/// The `Fave` payload of a list of keys.
pub open spec fn spec_encode_keys(keys: Seq<PropKey>) -> Seq<u8>
    decreases keys.len(),
{
    if keys.len() == 0 {
        Seq::empty()
    } else {
        spec_encode_keys(keys.drop_last()) + key_bytes(keys.last())
    }
}

/// The keys in order, each kept at its first occurrence only.
pub open spec fn first_occurrences(keys: Seq<PropKey>) -> Seq<PropKey>
    decreases keys.len(),
{
    if keys.len() == 0 {
        Seq::empty()
    } else {
        let prev = first_occurrences(keys.drop_last());
        if prev.contains(keys.last()) {
            prev
        } else {
            prev.push(keys.last())
        }
    }
}

/// The user's favourite prop identities, in the user's order.
#[derive(Debug)]
pub struct Favorites {
    keys: Vec<PropKey>,
}

impl View for Favorites {
    type V = Seq<PropKey>;

    closed spec fn view(&self) -> Seq<PropKey> {
        self.keys@
    }
}

/// A copy of a list of keys.
pub fn copy_keys(keys: &[PropKey]) -> (r: Vec<PropKey>)
    ensures
        r@ == keys@,
{
    let mut out: Vec<PropKey> = Vec::new();
    let mut i: usize = 0;
    while i < keys.len()
        invariant
            i <= keys@.len(),
            out@ == keys@.subrange(0, i as int),
        decreases keys@.len() - i,
    {
        out.push(keys[i]);
        assert(out@ =~= keys@.subrange(0, i as int + 1));
        i = i + 1;
    }
    assert(keys@.subrange(0, i as int) =~= keys@);
    out
}

impl Clone for Favorites {
    fn clone(&self) -> (r: Self)
        ensures
            r@ == self@,
    {
        proof {
            use_type_invariant(self);
        }
        Favorites { keys: copy_keys(self.keys.as_slice()) }
    }
}

impl Default for Favorites {
    fn default() -> (r: Self)
        ensures
            r@ == Seq::<PropKey>::empty(),
    {
        Favorites::new()
    }
}

impl Favorites {
    /// A favourite list never holds a key twice.
    #[verifier::type_invariant]
    closed spec fn no_repeats(&self) -> bool {
        distinct_keys(self.keys@)
    }

    /// An empty list.
    pub fn new() -> (r: Self)
        ensures
            r@ == Seq::<PropKey>::empty(),
    {
        Favorites { keys: Vec::new() }
    }

    /// The stored keys never repeat.
    pub fn keys(&self) -> (r: &[PropKey])
        ensures
            r@ == self@,
            distinct_keys(self@),
    {
        proof {
            use_type_invariant(self);
        }
        self.keys.as_slice()
    }

    /// How many favourites are stored.
    pub fn len(&self) -> (r: usize)
        ensures
            r == self@.len(),
    {
        self.keys.len()
    }

    /// Whether no favourite is stored.
    pub fn is_empty(&self) -> (r: bool)
        ensures
            r == (self@.len() == 0),
    {
        self.keys.len() == 0
    }

    /// Whether `key` is a favourite.
    pub fn contains(&self, key: PropKey) -> (r: bool)
        ensures
            r == self@.contains(key),
    {
        let mut i: usize = 0;
        while i < self.keys.len()
            invariant
                i <= self.keys@.len(),
                forall|j: int| 0 <= j < i ==> self.keys@[j] != key,
            decreases self.keys@.len() - i,
        {
            if self.keys[i] == key {
                assert(self.keys@[i as int] == key);
                return true;
            }
            i = i + 1;
        }
        false
    }

    /// Append `key` unless it is already a favourite; whether the list changed.
    pub fn add(&mut self, key: PropKey) -> (r: bool)
        ensures
            r == !old(self)@.contains(key),
            final(self)@ == if r {
                old(self)@.push(key)
            } else {
                old(self)@
            },
    {
        proof {
            use_type_invariant(&*self);
        }
        if self.contains(key) {
            return false;
        }
        let mut keys = Vec::new();
        std::mem::swap(&mut keys, &mut self.keys);
        keys.push(key);
        self.keys = keys;
        true
    }

    /// Remove `key`; whether the list changed.
    pub fn remove(&mut self, key: PropKey) -> (r: bool)
        ensures
            r == old(self)@.contains(key),
            final(self)@ == old(self)@.filter(|k: PropKey| k != key),
    {
        proof {
            use_type_invariant(&*self);
        }
        let ghost before = self.keys@;
        let mut kept: Vec<PropKey> = Vec::new();
        let mut found = false;
        let mut i: usize = 0;
        while i < self.keys.len()
            invariant
                i <= before.len(),
                self.keys@ == before,
                distinct_keys(before),
                kept@ == before.subrange(0, i as int).filter(|k: PropKey| k != key),
                distinct_keys(kept@),
                forall|j: int| 0 <= j < kept@.len() ==> before.subrange(0, i as int).contains(#[trigger] kept@[j]),
                found == before.subrange(0, i as int).contains(key),
            decreases before.len() - i,
        {
            let k = self.keys[i];
            let ghost pre = before.subrange(0, i as int);
            assert(before.subrange(0, i as int + 1) =~= pre.push(k));
            proof {
                pre.lemma_filter_push(k, |k2: PropKey| k2 != key);
            }
            if k == key {
                found = true;
            } else {
                proof {
                    assert forall|j: int| 0 <= j < kept@.len() implies kept@[j] != k by {
                        if kept@[j] == k {
                            let m = choose|m: int| 0 <= m < pre.len() && pre[m] == k;
                            assert(before[m] == before[i as int]);
                        }
                    }
                }
                kept.push(k);
            }
            proof {
                let now = before.subrange(0, i as int + 1);
                assert forall|j: int| 0 <= j < kept@.len() implies now.contains(#[trigger] kept@[j]) by {
                    if j < kept@.len() - 1 || k == key {
                        let m = choose|m: int| 0 <= m < pre.len() && pre[m] == kept@[j];
                        assert(now[m] == kept@[j]);
                    } else {
                        assert(now[i as int] == kept@[j]);
                    }
                }
                if pre.contains(key) {
                    let m = choose|m: int| 0 <= m < pre.len() && pre[m] == key;
                    assert(now[m] == key);
                }
                if k == key {
                    assert(now[i as int] == key);
                }
                if now.contains(key) {
                    let m = choose|m: int| 0 <= m < now.len() && now[m] == key;
                    if m < i {
                        assert(pre[m] == key);
                    }
                }
            }
            i = i + 1;
        }
        assert(before.subrange(0, i as int) =~= before);
        self.keys = kept;
        found
    }

    /// Remove every favourite.
    pub fn clear(&mut self)
        ensures
            final(self)@ == Seq::<PropKey>::empty(),
    {
        self.keys = Vec::new();
    }

    /// Encode the list as the `Fave` payload: `(id, crc)` little-endian pairs.
    /// An empty list encodes to an empty payload.
    pub fn encode_payload(&self) -> (r: Vec<u8>)
        ensures
            r@ == spec_encode_keys(self@),
    {
        let mut out: Vec<u8> = Vec::new();
        let mut i: usize = 0;
        while i < self.keys.len()
            invariant
                i <= self.keys@.len(),
                out@ == spec_encode_keys(self.keys@.subrange(0, i as int)),
            decreases self.keys@.len() - i,
        {
            let key = self.keys[i];
            put_i32(&mut out, key.id);
            put_u32(&mut out, key.crc);
            let ghost pre = self.keys@.subrange(0, i as int + 1);
            assert(pre.drop_last() =~= self.keys@.subrange(0, i as int));
            assert(out@ =~= spec_encode_keys(pre));
            i = i + 1;
        }
        assert(self.keys@.subrange(0, i as int) =~= self.keys@);
        out
    }

    /// Decode a `Fave` payload. Strict: a payload that is not a whole number
    /// of 8-byte specs is an error, and a repeated pair is stored once (first
    /// occurrence wins).
    pub fn decode_payload(payload: &[u8]) -> (r: Result<Self, PropError>)
        ensures
            payload@.len() % 8 == 0 ==> (r matches Ok(f) && f@ == first_occurrences(
                crate::bag_catalog::blob_specs(payload@),
            )),
            payload@.len() % 8 != 0 ==> r matches Err(PropError::BagIo { .. }),
    {
        let len = payload.len();
        if len % FAVE_SPEC_LEN != 0 {
            let mut detail = String::new();
            push_str(&mut detail, "favourites: the Fave payload is ");
            crate::text::push_decimal(&mut detail, len as u64);
            push_str(
                &mut detail,
                " byte(s); it must be a whole number of 8-byte (id, crc) specs",
            );
            return Err(PropError::BagIo { detail });
        }
        let ghost specs = crate::bag_catalog::blob_specs(payload@);
        let n = len / FAVE_SPEC_LEN;
        let mut f = Favorites::new();
        let mut j: usize = 0;
        while j < n
            invariant
                len == payload@.len(),
                n == len / 8,
                specs == crate::bag_catalog::blob_specs(payload@),
                j <= n,
                f@ == first_occurrences(specs.subrange(0, j as int)),
            decreases n - j,
        {
            assert(j * 8 + 8 <= len) by (nonlinear_arith)
                requires
                    j < n,
                    n == len / 8,
            ;
            let at = j * FAVE_SPEC_LEN;
            let key = PropKey::new(
                crate::prp::read::word_i32(payload, at),
                crate::prp::read::word_u32(payload, at + 4),
            );
            let ghost pre = specs.subrange(0, j as int + 1);
            assert(pre.drop_last() =~= specs.subrange(0, j as int));
            assert(pre.last() == key);
            f.add(key);
            j = j + 1;
        }
        assert(specs.subrange(0, j as int) =~= specs);
        Ok(f)
    }
}

/// The first record in `i..end` with this id.
pub open spec fn first_id_in(records: Seq<RecordView>, id: i32, i: int, end: int) -> Option<int>
    decreases end - i,
{
    if i >= end || i < 0 || i >= records.len() {
        None
    } else if records[i].rec.id == id {
        Some(i)
    } else {
        first_id_in(records, id, i + 1, end)
    }
}

/// The first `Fave`-typed run, from type `k` on, holding a record with the
/// `Fave` id; that record's index.
pub open spec fn fave_in_types(types: Seq<AssetTypeRec>, records: Seq<RecordView>, k: int) -> Option<
    int,
>
    decreases types.len() - k,
{
    if k < 0 || k >= types.len() {
        None
    } else {
        let b = type_bounds(types[k], records.len() as int);
        if kind_of(types[k]) == AssetType::Fave && first_id_in(records, FAVE_RECORD_ID, b.0, b.1) is Some {
            first_id_in(records, FAVE_RECORD_ID, b.0, b.1)
        } else {
            fave_in_types(types, records, k + 1)
        }
    }
}

/// The first record, from `i` on, with the `Fave` id and a payload of whole
/// specs.
pub open spec fn first_loose_fave(records: Seq<RecordView>, i: int) -> Option<int>
    decreases records.len() - i,
{
    if i < 0 || i >= records.len() {
        None
    } else if records[i].rec.id == FAVE_RECORD_ID && records[i].blob.len() % 8 == 0 {
        Some(i)
    } else {
        first_loose_fave(records, i + 1)
    }
}

/// Where a roster's `Fave` record is: a `Fave`-typed range wins; otherwise
/// any `Fave`-id record whose payload is a whole number of specs.
pub open spec fn spec_fave_index(v: RosterView) -> Option<int> {
    match fave_in_types(v.types, v.records, 0) {
        Some(i) => Some(i),
        None => first_loose_fave(v.records, 0),
    }
}

/// The favourites a roster holds, read tolerantly.
pub open spec fn spec_read_favorites(v: RosterView) -> Seq<PropKey> {
    match spec_fave_index(v) {
        Some(i) => if v.records[i].blob.len() % 8 == 0 {
            first_occurrences(crate::bag_catalog::blob_specs(v.records[i].blob))
        } else {
            Seq::empty()
        },
        None => Seq::empty(),
    }
}

/// The first record in `start..end` with this id.
fn find_id_in(records: &[PropRecord], id: i32, start: usize, end: usize) -> (r: Option<usize>)
    requires
        end <= records@.len(),
    ensures
        r matches Some(i) ==> first_id_in(records_view(records@), id, start as int, end as int)
            == Some(i as int) && i < records@.len(),
        r is None ==> first_id_in(records_view(records@), id, start as int, end as int) is None,
{
    let ghost rv = records_view(records@);
    let mut i = start;
    while i < end
        invariant
            start <= i,
            end <= records@.len(),
            rv == records_view(records@),
            first_id_in(rv, id, start as int, end as int) == first_id_in(rv, id, i as int, end as int),
        decreases end - i,
    {
        if records[i].rec.id == id {
            return Some(i);
        }
        i = i + 1;
    }
    None
}

/// Where the roster's `Fave` record is, if it carries one.
pub fn fave_record_index(roster: &Roster) -> (r: Option<usize>)
    ensures
        r matches Some(i) ==> spec_fave_index(roster@) == Some(i as int) && i
            < roster@.records.len(),
        r is None ==> spec_fave_index(roster@) is None,
{
    let types = roster.types();
    let records = roster.records();
    let ghost rv = records_view(records@);
    let n = records.len();
    let mut k: usize = 0;
    while k < types.len()
        invariant
            k <= types@.len(),
            types@ == roster@.types,
            rv == roster@.records,
            rv == records_view(records@),
            n == records@.len(),
            fave_in_types(types@, rv, 0) == fave_in_types(types@, rv, k as int),
        decreases types@.len() - k,
    {
        if types[k].kind() == AssetType::Fave {
            let (start, end) = crate::bag_catalog::type_range(&types[k], n);
            let ghost b = type_bounds(types@[k as int], n as int);
            proof {
                if b.0 >= b.1 {
                    assert(first_id_in(rv, FAVE_RECORD_ID, b.0, b.1) is None);
                }
            }
            match find_id_in(records, FAVE_RECORD_ID, start, end) {
                Some(i) => {
                    return Some(i);
                },
                None => {},
            }
        }
        k = k + 1;
    }
    let mut i: usize = 0;
    while i < n
        invariant
            i <= n,
            n == records@.len(),
            rv == records_view(records@),
            rv == roster@.records,
            types@ == roster@.types,
            fave_in_types(roster@.types, rv, 0) is None,
            first_loose_fave(rv, 0) == first_loose_fave(rv, i as int),
        decreases n - i,
    {
        if records[i].rec.id == FAVE_RECORD_ID && records[i].blob.len() % FAVE_SPEC_LEN == 0 {
            return Some(i);
        }
        i = i + 1;
    }
    None
}

/// The roster's `Fave` record, if it carries one: a `Fave`-typed range wins,
/// otherwise any `Fave`-id record whose payload is a whole number of specs.
pub fn fave_record(roster: &Roster) -> (r: Option<&PropRecord>)
    ensures
        match spec_fave_index(roster@) {
            Some(i) => r matches Some(p) && p@ == roster@.records[i],
            None => r is None,
        },
{
    match fave_record_index(roster) {
        Some(i) => Some(&roster.records()[i]),
        None => None,
    }
}

/// The `Fave` record built for a payload.
pub open spec fn fave_record_view(payload: Seq<u8>) -> RecordView {
    RecordView {
        rec: AssetRec {
            id: FAVE_RECORD_ID,
            r_handle: 0,
            data_offset: 0,
            data_size: payload.len() as u32,
            last_use_time: 0,
            name_offset: -1i32,
            flags: 0,
            crc: 0,
        },
        header: spec_blob_header(payload),
        encoding: spec_blob_encoding(payload),
        blob: payload,
        name: Some(Seq::empty()),
    }
}

/// Build the `Fave` record for a payload; its `crc` is seeded with `0` and is
/// not a payload CRC.
fn fave_record_from_payload(payload: Vec<u8>) -> (r: PropRecord)
    ensures
        r@ == fave_record_view(payload@),
{
    let header = match PropHeader::parse(payload.as_slice()) {
        Ok(h) => Some(h),
        Err(_) => None,
    };
    let encoding = match header {
        Some(h) => Some(h.encoding()),
        None => None,
    };
    let rec = AssetRec {
        id: FAVE_RECORD_ID,
        r_handle: 0,
        data_offset: 0,
        data_size: payload.len() as u32,
        last_use_time: 0,
        name_offset: -1,
        flags: 0,
        crc: 0,
    };
    PropRecord { rec, header, encoding, blob: payload, name: Some(String::new()) }
}

/// What writing favourites with this payload does to a roster.
pub open spec fn applied(v: RosterView, payload: Seq<u8>, got: RosterView) -> bool {
    match spec_fave_index(v) {
        Some(i) => if v.records[i].blob == payload {
            got == v
        } else {
            let key = PropKey { id: v.records[i].rec.id, crc: v.records[i].rec.crc };
            finished_as(
                got,
                spec_add_typed(
                    spec_remove_at(v, key_index(v.records, key, 0).unwrap()),
                    fave_record_view(payload),
                    AssetType::Fave,
                ),
            )
        },
        None => if payload.len() == 0 {
            got == v
        } else {
            finished_as(got, spec_add_typed(v, fave_record_view(payload), AssetType::Fave))
        },
    }
}

impl Favorites {
    /// Read the favourites out of a roster. Tolerant: no `Fave` record, or a
    /// payload that is not whole specs, reads as an empty list.
    pub fn read(roster: &Roster) -> (r: Self)
        ensures
            r@ == spec_read_favorites(roster@),
    {
        match fave_record(roster) {
            Some(record) => match Favorites::decode_payload(record.blob.as_slice()) {
                Ok(f) => f,
                Err(_) => Favorites::new(),
            },
            None => Favorites::new(),
        }
    }

    /// Write this list into `roster`'s `Fave` record.
    ///
    /// The existing record is removed and re-inserted into the `Fave` type.
    /// When the payload is already in place, or there is no record and no
    /// favourite, the roster is left alone, so a no-op write stays
    /// byte-exact. Never fails.
    pub fn apply_to(&self, roster: &mut Roster) -> (r: Result<(), PropError>)
        ensures
            r is Ok,
            applied(old(roster)@, spec_encode_keys(self@), final(roster)@),
    {
        let payload = self.encode_payload();
        let ghost v = roster@;
        let existing = match fave_record_index(roster) {
            Some(i) => {
                let record = &roster.records()[i];
                if bytes_equal(record.blob.as_slice(), payload.as_slice()) {
                    return Ok(());
                }
                let key = record.key();
                proof {
                    lemma_key_index_found(v.records, key, i as int);
                }
                Some(key)
            },
            None => {
                if payload.len() == 0 {
                    return Ok(());
                }
                None
            },
        };
        match existing {
            Some(key) => {
                roster.remove_prop(key);
                let ghost mid = roster@;
                roster.add_fave(fave_record_from_payload(payload));
                proof {
                    let removed = spec_remove_at(v, key_index(v.records, key, 0).unwrap());
                    assert(spec_add_typed(mid, fave_record_view(payload@), AssetType::Fave)
                        == spec_add_typed(removed, fave_record_view(payload@), AssetType::Fave));
                }
            },
            None => {
                roster.add_fave(fave_record_from_payload(payload));
            },
        }
        Ok(())
    }
}

/// Whether two byte strings are equal.
pub fn bytes_equal(a: &[u8], b: &[u8]) -> (r: bool)
    ensures
        r == (a@ == b@),
{
    if a.len() != b.len() {
        return false;
    }
    let mut i: usize = 0;
    while i < a.len()
        invariant
            i <= a@.len(),
            a@.len() == b@.len(),
            forall|j: int| 0 <= j < i ==> a@[j] == b@[j],
        decreases a@.len() - i,
    {
        if a[i] != b[i] {
            return false;
        }
        i = i + 1;
    }
    assert(a@ =~= b@);
    true
}

/// A record carrying the key is found by the key search.
pub(crate) proof fn lemma_key_index_found(records: Seq<RecordView>, key: PropKey, i: int)
    requires
        0 <= i < records.len(),
        records[i].rec.id == key.id && records[i].rec.crc == key.crc,
    ensures
        key_index(records, key, 0) is Some,
{
    lemma_key_index_from(records, key, 0, i);
}

proof fn lemma_key_index_from(records: Seq<RecordView>, key: PropKey, j: int, i: int)
    requires
        0 <= j <= i < records.len(),
        records[i].rec.id == key.id && records[i].rec.crc == key.crc,
    ensures
        key_index(records, key, j) is Some,
    decreases i - j,
{
    if j < i && !(records[j].rec.id == key.id && records[j].rec.crc == key.crc) {
        lemma_key_index_from(records, key, j + 1, i);
    }
}

/// The four little-endian bytes of a word read back give the word.
pub proof fn lemma_u32_le_round_trip(v: u32)
    ensures
        le_u32(u32_le(v), 0) == v,
        u32_le(v).len() == 4,
{
    let b = u32_le(v);
    assert(b[0] == (v % 256) as u8);
    assert(b[1] == ((v / 256) % 256) as u8);
    assert(b[2] == ((v / 65536) % 256) as u8);
    assert(b[3] == (v / 16777216) as u8);
    assert((v % 256) as u8 as int + ((v / 256) % 256) as u8 as int * 256 + ((v / 65536) % 256) as u8 as int
        * 65536 + (v / 16777216) as u8 as int * 16777216 == v) by (nonlinear_arith)
        requires
            v <= u32::MAX,
    {
        assert(v / 16777216 < 256);
    }
}

/// A signed word survives the round trip through its unsigned bits.
pub proof fn lemma_i32_bits(x: i32)
    ensures
        (x as u32) as i32 == x,
{
    assert((x as u32) as i32 == x) by (bit_vector);
}

/// The specs read back from an encoded key list are the keys.
pub proof fn lemma_encoded_specs(keys: Seq<PropKey>)
    ensures
        spec_encode_keys(keys).len() == 8 * keys.len(),
        forall|j: int|
            0 <= j < keys.len() ==> crate::bag_catalog::fave_spec_at(spec_encode_keys(keys), j)
                == #[trigger] keys[j],
    decreases keys.len(),
{
    if keys.len() > 0 {
        let prefix = keys.drop_last();
        let last = keys.last();
        lemma_encoded_specs(prefix);
        let e0 = spec_encode_keys(prefix);
        let kb = key_bytes(last);
        let e = spec_encode_keys(keys);
        assert(e == e0 + kb);
        lemma_u32_le_round_trip(last.id as u32);
        lemma_u32_le_round_trip(last.crc);
        lemma_i32_bits(last.id);
        assert forall|j: int| 0 <= j < keys.len() implies crate::bag_catalog::fave_spec_at(e, j)
            == #[trigger] keys[j] by {
            if j < keys.len() - 1 {
                assert(prefix[j] == keys[j]);
                assert(crate::bag_catalog::fave_spec_at(e0, j) == prefix[j]);
                assert(8 * j + 8 <= e0.len()) by (nonlinear_arith)
                    requires
                        j < keys.len() - 1,
                        e0.len() == 8 * (keys.len() - 1),
                ;
                assert(e[8 * j] == e0[8 * j]);
                assert(e[8 * j + 1] == e0[8 * j + 1]);
                assert(e[8 * j + 2] == e0[8 * j + 2]);
                assert(e[8 * j + 3] == e0[8 * j + 3]);
                assert(e[8 * j + 4] == e0[8 * j + 4]);
                assert(e[8 * j + 5] == e0[8 * j + 5]);
                assert(e[8 * j + 6] == e0[8 * j + 6]);
                assert(e[8 * j + 7] == e0[8 * j + 7]);
            } else {
                let at = e0.len() as int;
                assert(8 * j == at);
                assert(e.subrange(at, at + 4) =~= u32_le(last.id as u32));
                assert(e.subrange(at + 4, at + 8) =~= u32_le(last.crc));
                assert(le_u32(e, at) == le_u32(u32_le(last.id as u32), 0));
                assert(le_u32(e, at + 4) == le_u32(u32_le(last.crc), 0));
            }
        }
    }
}

/// First occurrences of a list without repeats is the list.
pub proof fn lemma_first_occurrences_distinct(keys: Seq<PropKey>)
    requires
        distinct_keys(keys),
    ensures
        first_occurrences(keys) == keys,
    decreases keys.len(),
{
    if keys.len() > 0 {
        let prefix = keys.drop_last();
        assert(distinct_keys(prefix));
        lemma_first_occurrences_distinct(prefix);
        if prefix.contains(keys.last()) {
            let m = choose|m: int| 0 <= m < prefix.len() && prefix[m] == keys.last();
            assert(keys[m] == keys[keys.len() - 1]);
        }
        assert(prefix.push(keys.last()) =~= keys);
    }
}

/// Encoding a favourite list and decoding the payload gives the list back,
/// in order: the `Fave` payload round-trips.
pub proof fn lemma_payload_round_trip(keys: Seq<PropKey>)
    requires
        distinct_keys(keys),
    ensures
        spec_encode_keys(keys).len() % 8 == 0,
        first_occurrences(crate::bag_catalog::blob_specs(spec_encode_keys(keys))) == keys,
{
    lemma_encoded_specs(keys);
    let e = spec_encode_keys(keys);
    assert(e.len() / 8 == keys.len());
    assert(crate::bag_catalog::blob_specs(e) =~= keys);
    lemma_first_occurrences_distinct(keys);
}

// ---------------------------------------------------------------------------
// Trash
// ---------------------------------------------------------------------------

/// What reading the trash document gave the caller.
#[derive(Debug)]
pub enum TrashRead {
    /// There is no document yet: a normal first run.
    NotFound,
    /// The document could not be read; the reason.
    Failed(String),
    /// The document's bytes.
    Contents(Vec<u8>),
}

/// How a staged trash change edits the roster once its document is written.
#[derive(Debug)]
pub enum RosterEdit {
    /// Leave the roster alone.
    Keep,
    /// Remove the record with this identity.
    Remove(PropKey),
    /// Insert this record into the `Prop` type.
    Add(PropRecord),
}

/// A staged trash change: the entries the store will hold, the document to
/// write first, and the roster edit to make once the write succeeded.
#[derive(Debug)]
pub struct TrashChange {
    /// The entries after the change, oldest first.
    pub entries: Vec<TrashEntry>,
    /// The trash document to write before committing.
    pub document: String,
    /// The roster edit to make after the write.
    pub edit: RosterEdit,
    /// For a restore, the identity the record gets back in the roster.
    pub restored: Option<PropKey>,
}

/// The trash document plus the entries it parsed.
#[derive(Debug)]
pub struct TrashStore {
    path: Option<String>,
    entries: Vec<TrashEntry>,
    load_error: Option<PropError>,
}

/// The abstract state of a trash store.
pub struct TrashView {
    /// The document's path; `None` when no bag folder is configured.
    pub path: Option<Seq<char>>,
    /// The entries, oldest first.
    pub entries: Seq<EntryView>,
    /// Why the last load produced an empty list, when it did.
    pub load_error: Option<PropError>,
}

impl View for TrashStore {
    type V = TrashView;

    closed spec fn view(&self) -> TrashView {
        TrashView {
            path: match self.path {
                Some(p) => Some(p@),
                None => None,
            },
            entries: entries_view(self.entries@),
            load_error: self.load_error,
        }
    }
}

/// Where the trash document lives: `<root>/Trash.store`.
pub fn trash_path(root: &str) -> (r: String)
    ensures
        r@ == join_text(root@, TRASH_FILE_NAME@),
{
    join(root, TRASH_FILE_NAME)
}

/// The document path a bag folder gives.
pub open spec fn path_for(context: BagContext) -> Option<Seq<char>> {
    match context.bag_root {
        Some(root) => Some(join_text(root@, TRASH_FILE_NAME@)),
        None => None,
    }
}

/// The largest document a load agrees to parse.
pub open spec fn max_document_bytes() -> int {
    MAX_TRASH_BYTES * 2 + 4096
}

/// What loading gives: the entries, and whether a load error is recorded.
pub open spec fn spec_load(path: Option<Seq<char>>, read: TrashRead) -> (Seq<EntryView>, bool) {
    match path {
        None => (Seq::empty(), true),
        Some(_) => match read {
            TrashRead::NotFound => (Seq::empty(), false),
            TrashRead::Failed(_) => (Seq::empty(), true),
            TrashRead::Contents(bytes) => if bytes@.len() > max_document_bytes() || !vstd::utf8::valid_utf8(bytes@) {
                (Seq::empty(), true)
            } else {
                match spec_parse_trash(vstd::utf8::decode_utf8(bytes@)) {
                    Some(es) => (es, false),
                    None => (Seq::empty(), true),
                }
            },
        },
    }
}

/// The error recorded when no bag folder is configured.
fn no_bag_folder() -> (r: PropError)
    ensures
        r is BagIo,
{
    PropError::BagIo {
        detail: String::from_str(
            "trash: no bag folder configured (set PALACE_PROP_BAG_DIR or a home directory)",
        ),
    }
}

/// A bag error naming the document when it is known.
fn store_error(path: &Option<String>, detail: &str) -> (r: PropError)
    ensures
        r is BagIo,
{
    let mut text = match path {
        Some(p) => String::from_str(p.as_str()),
        None => String::from_str("trash"),
    };
    push_str(&mut text, ": ");
    push_str(&mut text, detail);
    PropError::BagIo { detail: text }
}

/// The sum of the blob sizes exceeds the byte budget.
pub open spec fn blob_total(es: Seq<EntryView>) -> int
    decreases es.len(),
{
    if es.len() == 0 {
        0
    } else {
        blob_total(es.drop_last()) + es.last().blob.len()
    }
}

/// Drop oldest entries while more than one is left and the byte budget is
/// exceeded.
pub open spec fn trim_to_budget(es: Seq<EntryView>) -> Seq<EntryView>
    decreases es.len(),
{
    if es.len() > 1 && blob_total(es) > MAX_TRASH_BYTES {
        trim_to_budget(es.drop_first())
    } else {
        es
    }
}

/// The entries once both budgets hold: oldest dropped first.
pub open spec fn bounded(es: Seq<EntryView>) -> Seq<EntryView> {
    trim_to_budget(
        if es.len() > MAX_TRASH_ENTRIES {
            es.subrange(es.len() - MAX_TRASH_ENTRIES, es.len() as int)
        } else {
            es
        },
    )
}

proof fn lemma_blob_total_nonneg(es: Seq<EntryView>)
    ensures
        blob_total(es) >= 0,
    decreases es.len(),
{
    if es.len() > 0 {
        lemma_blob_total_nonneg(es.drop_last());
    }
}

proof fn lemma_blob_total_prefix(es: Seq<EntryView>, k: int)
    requires
        0 <= k <= es.len(),
    ensures
        blob_total(es.subrange(0, k)) <= blob_total(es),
    decreases es.len() - k,
{
    if k < es.len() {
        assert(es.drop_last() =~= es.subrange(0, es.len() - 1));
        assert(es.drop_last().subrange(0, k) =~= es.subrange(0, k));
        lemma_blob_total_prefix(es.drop_last(), k);
    } else {
        assert(es.subrange(0, k) =~= es);
    }
}

/// Whether the blobs together exceed the byte budget.
fn over_budget(entries: &Vec<TrashEntry>) -> (r: bool)
    ensures
        r == (blob_total(entries_view(entries@)) > MAX_TRASH_BYTES),
{
    let ghost es = entries_view(entries@);
    let mut total: usize = 0;
    let mut i: usize = 0;
    while i < entries.len()
        invariant
            i <= entries@.len(),
            es == entries_view(entries@),
            total == blob_total(es.subrange(0, i as int)),
            total <= MAX_TRASH_BYTES,
        decreases entries@.len() - i,
    {
        let ghost pre = es.subrange(0, i as int + 1);
        assert(pre.drop_last() =~= es.subrange(0, i as int));
        let n = entries[i].blob.len();
        if n > MAX_TRASH_BYTES - total {
            proof {
                lemma_blob_total_prefix(es, i as int + 1);
            }
            return true;
        }
        total = total + n;
        i = i + 1;
    }
    assert(es.subrange(0, i as int) =~= es);
    false
}

/// Drop oldest entries until the store fits its count and byte budgets.
fn bound_entries(entries: &mut Vec<TrashEntry>)
    ensures
        entries_view(final(entries)@) == bounded(entries_view(old(entries)@)),
{
    let ghost es = entries_view(entries@);
    while entries.len() > MAX_TRASH_ENTRIES
        invariant
            entries@.len() >= MAX_TRASH_ENTRIES ==> entries_view(entries@) == es.subrange(
                es.len() - entries@.len(),
                es.len() as int,
            ),
            entries@.len() <= es.len(),
            es.len() > MAX_TRASH_ENTRIES ==> entries@.len() >= MAX_TRASH_ENTRIES,
            es.len() <= MAX_TRASH_ENTRIES ==> entries_view(entries@) == es,
        decreases entries@.len(),
    {
        let ghost before = entries_view(entries@);
        entries.remove(0);
        assert(entries_view(entries@) =~= before.drop_first());
        assert(before.drop_first() =~= es.subrange(es.len() - entries@.len(), es.len() as int));
    }
    proof {
        if es.len() <= MAX_TRASH_ENTRIES {
            assert(entries_view(entries@) =~= es);
        }
    }
    let ghost start = entries_view(entries@);
    assert(start == if es.len() > MAX_TRASH_ENTRIES {
        es.subrange(es.len() - MAX_TRASH_ENTRIES, es.len() as int)
    } else {
        es
    });
    while entries.len() > 1 && over_budget(entries)
        invariant
            trim_to_budget(entries_view(entries@)) == trim_to_budget(start),
        decreases entries@.len(),
    {
        let ghost before = entries_view(entries@);
        entries.remove(0);
        assert(entries_view(entries@) =~= before.drop_first());
    }
}

/// The entry a roster record becomes in the trash.
pub open spec fn entry_of_record(r: RecordView) -> EntryView {
    EntryView { key: PropKey { id: r.rec.id, crc: r.rec.crc }, name: r.name, blob: r.blob }
}

/// Capture a roster record.
fn entry_from_record(record: &PropRecord) -> (r: TrashEntry)
    ensures
        r@ == entry_of_record(record@),
{
    TrashEntry {
        key: record.key(),
        name: match &record.name {
            Some(n) => Some(n.clone()),
            None => None,
        },
        blob: crate::codec::thirtytwo::slice_to_vec(record.blob.as_slice()),
    }
}

/// The roster record a trash entry is restored as.
pub open spec fn record_of_entry(e: EntryView) -> RecordView {
    RecordView {
        rec: AssetRec {
            id: e.key.id,
            r_handle: 0,
            data_offset: 0,
            data_size: e.blob.len() as u32,
            last_use_time: 0,
            name_offset: -1i32,
            flags: 0,
            crc: e.key.crc,
        },
        header: spec_blob_header(e.blob),
        encoding: spec_blob_encoding(e.blob),
        blob: e.blob,
        name: e.name,
    }
}

/// Rebuild a roster record from a trash entry.
fn entry_to_record(e: &TrashEntry) -> (r: PropRecord)
    ensures
        r@ == record_of_entry(e@),
{
    let blob = crate::codec::thirtytwo::slice_to_vec(e.blob.as_slice());
    let header = match PropHeader::parse(blob.as_slice()) {
        Ok(h) => Some(h),
        Err(_) => None,
    };
    let encoding = match header {
        Some(h) => Some(h.encoding()),
        None => None,
    };
    let rec = AssetRec {
        id: e.key.id,
        r_handle: 0,
        data_offset: 0,
        data_size: blob.len() as u32,
        last_use_time: 0,
        name_offset: -1,
        flags: 0,
        crc: e.key.crc,
    };
    PropRecord {
        rec,
        header,
        encoding,
        blob,
        name: match &e.name {
            Some(n) => Some(n.clone()),
            None => None,
        },
    }
}

/// The identity a trashed entry gets back in the roster: a blob of 12 bytes
/// or more has its CRC recomputed from the payload.
pub open spec fn restored_key(e: EntryView) -> PropKey {
    if e.blob.len() >= 12 {
        PropKey { id: e.key.id, crc: crate::crc::spec_asset_crc(e.blob.subrange(12, e.blob.len() as int)) }
    } else {
        e.key
    }
}

fn restored_key_of(e: &TrashEntry) -> (r: PropKey)
    ensures
        r == restored_key(e@),
{
    if e.blob.len() >= 12 {
        PropKey::new(e.key.id, crate::crc::asset_crc(&e.blob.as_slice()[12..e.blob.len()]))
    } else {
        e.key
    }
}

/// The first entry with this identity.
pub open spec fn entry_index(es: Seq<EntryView>, key: PropKey, i: int) -> Option<int>
    decreases es.len() - i,
{
    if i < 0 || i >= es.len() {
        None
    } else if es[i].key == key {
        Some(i)
    } else {
        entry_index(es, key, i + 1)
    }
}

/// The entries with `e` stored: it replaces the first entry with its
/// identity, or is appended.
pub open spec fn put_entry(es: Seq<EntryView>, e: EntryView) -> Seq<EntryView> {
    match entry_index(es, e.key, 0) {
        Some(i) => es.update(i, e),
        None => es.push(e),
    }
}

fn find_entry(entries: &Vec<TrashEntry>, key: PropKey) -> (r: Option<usize>)
    ensures
        r matches Some(i) ==> entry_index(entries_view(entries@), key, 0) == Some(i as int) && i
            < entries@.len(),
        r is None ==> entry_index(entries_view(entries@), key, 0) is None,
{
    let ghost es = entries_view(entries@);
    let mut i: usize = 0;
    while i < entries.len()
        invariant
            i <= entries@.len(),
            es == entries_view(entries@),
            entry_index(es, key, 0) == entry_index(es, key, i as int),
        decreases entries@.len() - i,
    {
        if entries[i].key == key {
            return Some(i);
        }
        i = i + 1;
    }
    None
}

/// A copy of a list of entries.
fn copy_entries(entries: &Vec<TrashEntry>) -> (r: Vec<TrashEntry>)
    ensures
        entries_view(r@) == entries_view(entries@),
{
    let mut out: Vec<TrashEntry> = Vec::new();
    let mut i: usize = 0;
    while i < entries.len()
        invariant
            i <= entries@.len(),
            entries_view(out@) == entries_view(entries@).subrange(0, i as int),
        decreases entries@.len() - i,
    {
        let ghost before = entries_view(out@);
        out.push(copy_trash_entry(&entries[i]));
        assert(entries_view(out@) =~= before.push(entries@[i as int]@));
        assert(entries_view(entries@).subrange(0, i as int + 1) =~= entries_view(entries@).subrange(
            0,
            i as int,
        ).push(entries@[i as int]@));
        i = i + 1;
    }
    assert(entries_view(entries@).subrange(0, i as int) =~= entries_view(entries@));
    out
}

/// What staging a delete decides: the refusal, nothing to do, or the entries
/// the store will hold.
pub open spec fn spec_stage_trash(t: TrashView, v: RosterView, key: PropKey) -> Option<Option<Seq<EntryView>>> {
    if spec_fave_index(v) matches Some(f) && (PropKey { id: v.records[f].rec.id, crc: v.records[f].rec.crc }) == key {
        None
    } else {
        match key_index(v.records, key, 0) {
            None => Some(None),
            Some(i) => if v.records[i].blob.len() > MAX_TRASH_BLOB_BYTES || t.path is None {
                None
            } else {
                Some(Some(bounded(put_entry(t.entries, entry_of_record(v.records[i])))))
            },
        }
    }
}

/// The entries without the one at `index`.
pub open spec fn without(es: Seq<EntryView>, index: int) -> Seq<EntryView> {
    es.remove(index)
}

impl TrashStore {
    /// The document this store reads and writes; `None` when no bag folder is
    /// configured.
    pub fn path(&self) -> (r: Option<&str>)
        ensures
            match self@.path {
                Some(p) => r matches Some(s) && s@ == p,
                None => r is None,
            },
    {
        match &self.path {
            Some(p) => Some(p.as_str()),
            None => None,
        }
    }

    /// The trashed entries, oldest first.
    pub fn entries(&self) -> (r: &[TrashEntry])
        ensures
            entries_view(r@) == self@.entries,
    {
        self.entries.as_slice()
    }

    /// The trashed identities, oldest first.
    pub fn keys(&self) -> (r: Vec<PropKey>)
        ensures
            r@ == Seq::new(self@.entries.len(), |i: int| self@.entries[i].key),
    {
        let mut out: Vec<PropKey> = Vec::new();
        let mut i: usize = 0;
        while i < self.entries.len()
            invariant
                i <= self.entries@.len(),
                out@ == Seq::new(i as nat, |j: int| self@.entries[j].key),
            decreases self.entries@.len() - i,
        {
            out.push(self.entries[i].key);
            assert(out@ =~= Seq::new(i as nat + 1, |j: int| self@.entries[j].key));
            i = i + 1;
        }
        out
    }

    /// How many entries the trash holds.
    pub fn len(&self) -> (r: usize)
        ensures
            r == self@.entries.len(),
    {
        self.entries.len()
    }

    /// Whether the trash is empty.
    pub fn is_empty(&self) -> (r: bool)
        ensures
            r == (self@.entries.len() == 0),
    {
        self.entries.len() == 0
    }

    /// Whether `key` is in the trash.
    pub fn contains(&self, key: PropKey) -> (r: bool)
        ensures
            r == (entry_index(self@.entries, key, 0) is Some),
    {
        find_entry(&self.entries, key).is_some()
    }

    /// Why the last load produced an empty list, when it did.
    pub fn load_error(&self) -> (r: Option<&PropError>)
        ensures
            match self@.load_error {
                Some(e) => r == Some(&e),
                None => r is None,
            },
    {
        match &self.load_error {
            Some(e) => Some(e),
            None => None,
        }
    }

    /// Open the trash of `context`'s bag folder, from what reading its
    /// document gave. Never fails: a missing document is an empty store, an
    /// unreadable or corrupt one an empty store plus a load error.
    pub fn open(context: &BagContext, read: TrashRead) -> (r: Self)
        ensures
            r@.path == path_for(*context),
            r@.entries == spec_load(path_for(*context), read).0,
            r@.load_error is Some == spec_load(path_for(*context), read).1,
    {
        let path = match &context.bag_root {
            Some(root) => Some(trash_path(root.as_str())),
            None => None,
        };
        let mut store = TrashStore { path, entries: Vec::new(), load_error: None };
        store.reload(read);
        store
    }

    /// Re-parse the document from what reading it gave, replacing the
    /// in-memory entries. Never fails.
    pub fn reload(&mut self, read: TrashRead)
        ensures
            final(self)@.path == old(self)@.path,
            final(self)@.entries == spec_load(old(self)@.path, read).0,
            final(self)@.load_error is Some == spec_load(old(self)@.path, read).1,
    {
        self.entries = Vec::new();
        self.load_error = None;
        assert(entries_view(self.entries@) =~= Seq::empty());
        if self.path.is_none() {
            self.load_error = Some(no_bag_folder());
            return;
        }
        match read {
            TrashRead::NotFound => {},
            TrashRead::Failed(reason) => {
                self.load_error = Some(store_error(&self.path, reason.as_str()));
            },
            TrashRead::Contents(bytes) => {
                if bytes.len() > MAX_TRASH_BYTES * 2 + 4096 {
                    self.load_error = Some(
                        store_error(
                            &self.path,
                            "trash document is oversized; refusing to parse it",
                        ),
                    );
                    return;
                }
                let text = match crate::trash_doc::utf8_string(bytes) {
                    Ok(t) => t,
                    Err(_) => {
                        self.load_error = Some(
                            store_error(&self.path, "trash document is not valid UTF-8"),
                        );
                        return;
                    },
                };
                let label = match &self.path {
                    Some(p) => String::from_str(p.as_str()),
                    None => String::new(),
                };
                match parse_trash(text.as_str(), label.as_str()) {
                    Ok(entries) => {
                        self.entries = entries;
                    },
                    Err(e) => {
                        self.load_error = Some(e);
                    },
                }
            },
        }
    }

    /// Stage moving the bag prop `key` to the trash.
    ///
    /// `Ok(None)` when the roster has no such record. The `Fave` record is not
    /// a prop and is refused, as is a blob above [`MAX_TRASH_BLOB_BYTES`] and a
    /// store with no bag folder. The caller writes the change's document, then
    /// commits it, which removes the record from the roster.
    pub fn trash(&self, roster: &Roster, key: PropKey) -> (r: Result<Option<TrashChange>, PropError>)
        ensures
            match spec_stage_trash(self@, roster@, key) {
                None => r matches Err(PropError::BagIo { .. }),
                Some(None) => r matches Ok(None),
                Some(Some(es)) => r matches Ok(Some(c)) && entries_view(c.entries@) == es
                    && c.document@ == spec_render(es) && c.edit == RosterEdit::Remove(key)
                    && c.restored is None,
            },
    {
        match fave_record(roster) {
            Some(record) => {
                if record.key() == key {
                    return Err(
                        store_error(
                            &self.path,
                            "refusing to trash the Fave record; clear the favourite list instead",
                        ),
                    );
                }
            },
            None => {},
        }
        let record = match roster.record_for(key) {
            Some(r) => r,
            None => {
                return Ok(None);
            },
        };
        let entry = entry_from_record(record);
        if entry.blob.len() > MAX_TRASH_BLOB_BYTES {
            return Err(store_error(&self.path, "refusing to trash a prop whose blob is above the cap"));
        }
        let mut candidate = copy_entries(&self.entries);
        let ghost before = entries_view(candidate@);
        assert(before == self@.entries);
        proof {
            crate::prp::mutate::lemma_key_index_in_range(roster@.records, key, 0);
        }
        assert(entry@.key == key);
        match find_entry(&candidate, key) {
            Some(i) => {
                candidate.set(i, entry);
                assert(entries_view(candidate@) =~= before.update(i as int, entry_of_record(record@)));
            },
            None => {
                candidate.push(entry);
                assert(entries_view(candidate@) =~= before.push(entry_of_record(record@)));
            },
        }
        assert(entries_view(candidate@) == put_entry(self@.entries, entry_of_record(record@)));
        bound_entries(&mut candidate);
        if self.path.is_none() {
            return Err(no_bag_folder());
        }
        let document = render(candidate.as_slice());
        assert(entries_view(candidate@) == bounded(put_entry(self@.entries, entry_of_record(record@))));
        Ok(Some(TrashChange { entries: candidate, document, edit: RosterEdit::Remove(key), restored: None }))
    }

    /// Stage moving the trashed prop `key` back into the bag.
    ///
    /// The caller writes the change's document, then commits it, which inserts
    /// the record into the roster; `restored` is the identity it gets there.
    pub fn restore_from_trash(&self, roster: &Roster, key: PropKey) -> (r: Result<TrashChange, PropError>)
        ensures
            match entry_index(self@.entries, key, 0) {
                None => r matches Err(PropError::BagIo { .. }),
                Some(i) => if self@.path is None {
                    r matches Err(PropError::BagIo { .. })
                } else {
                    r matches Ok(c) && entries_view(c.entries@) == without(self@.entries, i)
                        && c.document@ == spec_render(without(self@.entries, i)) && (c.edit matches RosterEdit::Add(p) && p@ == record_of_entry(self@.entries[i]))
                        && c.restored == Some(restored_key(self@.entries[i]))
                },
            },
    {
        let index = match find_entry(&self.entries, key) {
            Some(i) => i,
            None => {
                return Err(store_error(&self.path, "that id is not in the trash"));
            },
        };
        let entry = &self.entries[index];
        let record = entry_to_record(entry);
        let restored = restored_key_of(entry);
        let mut candidate = copy_entries(&self.entries);
        let ghost before = entries_view(candidate@);
        candidate.remove(index);
        assert(entries_view(candidate@) =~= before.remove(index as int));
        if self.path.is_none() {
            return Err(no_bag_folder());
        }
        let document = render(candidate.as_slice());
        Ok(TrashChange { entries: candidate, document, edit: RosterEdit::Add(record), restored: Some(restored) })
    }

    /// Stage emptying the trash: an empty, valid document.
    pub fn purge_trash(&self) -> (r: Result<TrashChange, PropError>)
        ensures
            self@.path is None ==> r matches Err(PropError::BagIo { .. }),
            self@.path is Some ==> (r matches Ok(c) && c.entries@.len() == 0 && c.document@
                == spec_render(Seq::empty()) && c.edit == RosterEdit::Keep && c.restored is None),
    {
        if self.path.is_none() {
            return Err(no_bag_folder());
        }
        let entries: Vec<TrashEntry> = Vec::new();
        let document = render(entries.as_slice());
        assert(entries_view(entries@) =~= Seq::empty());
        Ok(TrashChange { entries, document, edit: RosterEdit::Keep, restored: None })
    }

    /// Commit a staged change once its document is written: the store takes
    /// the change's entries and the roster gets its edit.
    pub fn commit(&mut self, roster: &mut Roster, change: TrashChange)
        ensures
            final(self)@.path == old(self)@.path,
            final(self)@.entries == entries_view(change.entries@),
            final(self)@.load_error == old(self)@.load_error,
            match change.edit {
                RosterEdit::Keep => final(roster)@ == old(roster)@,
                RosterEdit::Remove(key) => match key_index(old(roster)@.records, key, 0) {
                    None => final(roster)@ == old(roster)@,
                    Some(i) => finished_as(final(roster)@, spec_remove_at(old(roster)@, i)),
                },
                RosterEdit::Add(p) => finished_as(
                    final(roster)@,
                    spec_add_typed(old(roster)@, p@, AssetType::Prop),
                ),
            },
    {
        let TrashChange { entries, document: _, edit, restored: _ } = change;
        self.entries = entries;
        match edit {
            RosterEdit::Keep => {},
            RosterEdit::Remove(key) => {
                roster.remove_prop(key);
            },
            RosterEdit::Add(record) => {
                roster.add_prop(record);
            },
        }
    }
}

} // verus!
