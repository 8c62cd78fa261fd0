//! Read-only shelves: `.prp` collections the bag browses but never writes.
//!
//! A shelf is loaded once, from its bytes, into catalog entries tagged with
//! the shelf's name as their bag collection. A shelf that cannot be read or
//! parsed is still reported, as unreadable, with the reason, so the picker can
//! show the failure; loading never fails.

use vstd::prelude::*;

use crate::catalog::CatalogEntry;
use crate::error::PropError;
use crate::paths::{file_stem, has_prp_extension, spec_file_name, spec_is_prp, stem_of};
use crate::provenance::{targets, Provenance};
use crate::prp::read::records_view;
use crate::prp::record::opt_text;
use crate::prp::{PropKey, PropRecord, RecordView, Roster};
use crate::text::push_str;

verus! {

/// How healthy a shelf looked when it was loaded.
#[derive(Debug, Clone, Copy, PartialEq, Eq, Hash, Default, Structural)]
pub enum ShelfStatus {
    /// Read and parsed; every record carried a usable prop header and none
    /// was dropped.
    Healthy,
    /// Read and parsed, but at least one record is unusable.
    Degraded,
    /// The file could not be read or parsed at all.
    #[default]
    Unreadable,
}

/// Counting facts about one shelf.
#[derive(Debug, Clone, Copy, PartialEq, Eq, Default, Structural)]
pub struct ShelfHealth {
    /// Records the roster holds after the tolerant parse.
    pub records: usize,
    /// Records whose name resolved.
    pub named: usize,
    /// Records with no usable prop header.
    pub undecodable: usize,
    /// Records the reader dropped because their blob fell outside the data
    /// region.
    pub dropped: usize,
    /// The coarse status derived from the counters.
    pub status: ShelfStatus,
}

/// One loaded shelf: where it is, what it holds and how healthy it is.
#[derive(Debug, Clone)]
pub struct Shelf {
    /// The `.prp` file's path.
    pub path: String,
    /// The display name, written into every entry's bag collection.
    pub name: String,
    /// The shelf's entries, in file order; empty when `error` is set.
    pub entries: Vec<CatalogEntry>,
    /// The health counters and derived status.
    pub health: ShelfHealth,
    /// The reason the shelf could not be read or parsed, if it could not.
    pub error: Option<String>,
}

impl Shelf {
    /// Whether the shelf was read and parsed without any unusable record.
    pub fn is_healthy(&self) -> (r: bool)
        ensures
            r == (self.error is None && self.health.status == ShelfStatus::Healthy),
    {
        self.error.is_none() && self.health.status == ShelfStatus::Healthy
    }

    /// Whether the shelf could be read at all, regardless of health.
    pub fn is_readable(&self) -> (r: bool)
        ensures
            r == (self.error is None),
    {
        self.error.is_none()
    }
}

/// A dimension from a header word, negative read as zero.
pub open spec fn dim(v: i16) -> u16 {
    if v < 0 {
        0
    } else {
        v as u16
    }
}

/// The catalog entry one record becomes on a shelf.
pub open spec fn entry_of(r: RecordView, collection: Seq<char>, e: CatalogEntry) -> bool {
    &&& e.id == r.rec.id as u32
    &&& e.crc == r.rec.crc
    &&& opt_text(e.name) == r.name
    &&& e.width == (match r.header {
        Some(h) => dim(h.width),
        None => 0,
    })
    &&& e.height == (match r.header {
        Some(h) => dim(h.height),
        None => 0,
    })
    &&& e.flags == (match r.header {
        Some(h) => h.flags,
        None => 0,
    })
    &&& !e.favorite
    &&& !e.trash
    &&& e.provenance matches Provenance::Bag { collection: c, key }
    &&& c@ == collection
    &&& key == (PropKey { id: r.rec.id, crc: r.rec.crc })
}

/// Turn one roster record into the catalog entry the picker consumes; the
/// blob is never decoded.
pub fn catalog_entry(record: &PropRecord, collection: &str) -> (r: CatalogEntry)
    ensures
        entry_of(record@, collection@, r),
{
    let (width, height) = match record.header {
        Some(h) => (
            if h.width < 0 {
                0u16
            } else {
                h.width as u16
            },
            if h.height < 0 {
                0u16
            } else {
                h.height as u16
            },
        ),
        None => (0u16, 0u16),
    };
    CatalogEntry {
        id: record.rec.id as u32,
        crc: record.rec.crc,
        name: match &record.name {
            Some(n) => Some(n.clone()),
            None => None,
        },
        width,
        height,
        flags: record.prop_flags(),
        favorite: false,
        trash: false,
        provenance: Provenance::bag(collection, record.key()),
    }
}

/// The records of a shelf that carry a header, in order.
pub open spec fn with_header(records: Seq<RecordView>) -> Seq<RecordView>
    decreases records.len(),
{
    if records.len() == 0 {
        Seq::empty()
    } else if records.last().header is Some {
        with_header(records.drop_last()).push(records.last())
    } else {
        with_header(records.drop_last())
    }
}

/// How many records are named.
pub open spec fn named_count(records: Seq<RecordView>) -> nat
    decreases records.len(),
{
    if records.len() == 0 {
        0
    } else {
        named_count(records.drop_last()) + if records.last().name is Some {
            1nat
        } else {
            0nat
        }
    }
}

/// Whether a shelf is what loading these contents gives.
pub open spec fn loaded_from(shelf: Shelf, path: Seq<char>, name: Seq<char>, contents: Result<Seq<u8>, Seq<char>>) -> bool {
    &&& shelf.path@ == path
    &&& shelf.name@ == name
    &&& match contents {
        Err(_) => shelf.error is Some && shelf.entries@.len() == 0 && shelf.health
            == ShelfHealth::default_value(),
        Ok(bytes) => match crate::prp::read::spec_parse_roster(bytes) {
            None => shelf.error is Some && shelf.entries@.len() == 0 && shelf.health
                == ShelfHealth::default_value(),
            Some(v) => {
                let usable = with_header(v.records);
                &&& shelf.error is None
                &&& shelf.entries@.len() == usable.len()
                &&& forall|i: int|
                    0 <= i < usable.len() ==> entry_of(usable[i], name, #[trigger] shelf.entries@[i])
                &&& shelf.health.records == v.records.len()
                &&& shelf.health.named == named_count(v.records)
                &&& shelf.health.undecodable == v.records.len() - usable.len()
                &&& shelf.health.dropped == v.dropped
                &&& shelf.health.status == if v.dropped == 0 && usable.len() == v.records.len() {
                    ShelfStatus::Healthy
                } else {
                    ShelfStatus::Degraded
                }
            },
        },
    }
}

impl ShelfHealth {
    /// All counters zero and the shelf unreadable.
    pub open spec fn default_value() -> ShelfHealth {
        ShelfHealth { records: 0, named: 0, undecodable: 0, dropped: 0, status: ShelfStatus::Unreadable }
    }
}

/// The contents a caller read for a shelf: its bytes or the reason it could
/// not be read.
pub open spec fn contents_view(c: Result<&[u8], String>) -> Result<Seq<u8>, Seq<char>> {
    match c {
        Ok(b) => Ok(b@),
        Err(m) => Err(m@),
    }
}

/// An unreadable shelf with a reason.
fn unreadable(path: &str, name: &str, reason: &str) -> (r: Shelf)
    ensures
        r.path@ == path@,
        r.name@ == name@,
        r.error is Some,
        r.entries@.len() == 0,
        r.health == ShelfHealth::default_value(),
{
    let mut error = String::from_str(path);
    push_str(&mut error, ": ");
    push_str(&mut error, reason);
    Shelf {
        path: String::from_str(path),
        name: String::from_str(name),
        entries: Vec::new(),
        health: ShelfHealth {
            records: 0,
            named: 0,
            undecodable: 0,
            dropped: 0,
            status: ShelfStatus::Unreadable,
        },
        error: Some(error),
    }
}

/// Build one shelf from what was read for it, never failing: a file that
/// could not be read or parsed becomes an unreadable shelf carrying the
/// reason.
pub fn load_shelf(path: &str, name: &str, contents: Result<&[u8], String>) -> (r: Shelf)
    ensures
        loaded_from(r, path@, name@, contents_view(contents)),
{
    let bytes = match contents {
        Err(reason) => {
            return unreadable(path, name, reason.as_str());
        },
        Ok(b) => b,
    };
    let roster = match Roster::parse(bytes) {
        Ok(r) => r,
        Err(e) => {
            let text = e.message();
            return unreadable(path, name, text.as_str());
        },
    };
    let records = roster.records();
    let ghost rv = records_view(records@);
    let mut entries: Vec<CatalogEntry> = Vec::new();
    let mut named: usize = 0;
    let mut undecodable: usize = 0;
    let mut i: usize = 0;
    while i < records.len()
        invariant
            i <= records@.len(),
            rv == records_view(records@),
            rv == roster@.records,
            named == named_count(rv.subrange(0, i as int)),
            named <= i,
            entries@.len() == with_header(rv.subrange(0, i as int)).len(),
            undecodable == i - entries@.len(),
            forall|k: int|
                0 <= k < entries@.len() ==> entry_of(
                    with_header(rv.subrange(0, i as int))[k],
                    name@,
                    #[trigger] entries@[k],
                ),
        decreases records@.len() - i,
    {
        let record = &records[i];
        let ghost pre = rv.subrange(0, i as int + 1);
        assert(pre.drop_last() =~= rv.subrange(0, i as int));
        assert(pre.last() == record@);
        if record.name.is_some() {
            named = named + 1;
        }
        if record.header.is_none() {
            undecodable = undecodable + 1;
        } else {
            let e = catalog_entry(record, name);
            entries.push(e);
        }
        i = i + 1;
    }
    assert(rv.subrange(0, i as int) =~= rv);
    let dropped = roster.dropped_records();
    let status = if dropped == 0 && undecodable == 0 {
        ShelfStatus::Healthy
    } else {
        ShelfStatus::Degraded
    };
    Shelf {
        path: String::from_str(path),
        name: String::from_str(name),
        entries,
        health: ShelfHealth { records: records.len(), named, undecodable, dropped, status },
        error: None,
    }
}

/// Whether a path names a `.prp` file, ignoring ASCII case.
pub fn is_prp_file(path: &str) -> (r: bool)
    ensures
        r == spec_is_prp(path@),
{
    has_prp_extension(path)
}

/// The collection name for a shelf path: the file stem, or the whole path
/// when the stem is missing or empty.
pub fn shelf_name(path: &str) -> (r: String)
    ensures
        match spec_file_name(path@) {
            Some(n) => if stem_of(n).len() > 0 {
                r@ == stem_of(n)
            } else {
                r@ == path@
            },
            None => r@ == path@,
        },
{
    match file_stem(path) {
        Some(s) => if s.unicode_len() > 0 {
            s
        } else {
            String::from_str(path)
        },
        None => String::from_str(path),
    }
}

/// A set of shelves plus the entries aggregated across them.
#[derive(Debug, Clone, Default)]
pub struct ShelfSet {
    shelves: Vec<Shelf>,
}

/// Every shelf's entries, concatenated in shelf order.
pub open spec fn all_entries(shelves: Seq<Shelf>) -> Seq<CatalogEntry>
    decreases shelves.len(),
{
    if shelves.len() == 0 {
        Seq::empty()
    } else {
        all_entries(shelves.drop_last()) + shelves.last().entries@
    }
}

/// The sum of every shelf's record count.
pub open spec fn records_total(shelves: Seq<Shelf>) -> int
    decreases shelves.len(),
{
    if shelves.len() == 0 {
        0
    } else {
        records_total(shelves.drop_last()) + shelves.last().health.records
    }
}

/// The shelves that could not be read, in order.
pub open spec fn failed(shelves: Seq<Shelf>) -> Seq<Shelf>
    decreases shelves.len(),
{
    if shelves.len() == 0 {
        Seq::empty()
    } else if shelves.last().error is Some {
        failed(shelves.drop_last()).push(shelves.last())
    } else {
        failed(shelves.drop_last())
    }
}

/// The shelves a list of references points at.
pub open spec fn shelf_targets(refs: Seq<&Shelf>) -> Seq<Shelf> {
    Seq::new(refs.len(), |i: int| *refs[i])
}

impl ShelfSet {
    /// The shelves, for contracts.
    pub closed spec fn items(&self) -> Seq<Shelf> {
        self.shelves@
    }

    /// An empty set.
    pub fn new() -> (r: Self)
        ensures
            r.items().len() == 0,
    {
        ShelfSet { shelves: Vec::new() }
    }

    /// Add one shelf, loaded from what was read for it, unless a shelf with
    /// the same path (compared literally) is already in the set.
    pub fn add_shelf(&mut self, path: &str, contents: Result<&[u8], String>) -> (r: &Shelf)
        ensures
            (exists|i: int| 0 <= i < old(self).items().len() && old(self).items()[i].path@ == path@)
                ==> final(self).items() == old(self).items(),
            !(exists|i: int|
                0 <= i < old(self).items().len() && old(self).items()[i].path@ == path@) ==> {
                &&& final(self).items().len() == old(self).items().len() + 1
                &&& final(self).items().subrange(0, old(self).items().len() as int) == old(
                    self,
                ).items()
                &&& loaded_from(
                    final(self).items().last(),
                    path@,
                    shelf_name_of(path@),
                    contents_view(contents),
                )
            },
    {
        let mut i: usize = 0;
        while i < self.shelves.len()
            invariant
                i <= self.shelves@.len(),
                self.shelves@ == old(self).shelves@,
                forall|k: int| 0 <= k < i ==> self.shelves@[k].path@ != path@,
            decreases self.shelves@.len() - i,
        {
            if crate::text::str_eq(self.shelves[i].path.as_str(), path) {
                return &self.shelves[i];
            }
            i = i + 1;
        }
        let name = shelf_name(path);
        let shelf = load_shelf(path, name.as_str(), contents);
        self.shelves.push(shelf);
        let last = self.shelves.len() - 1;
        assert(self.shelves@.subrange(0, old(self).shelves@.len() as int) =~= old(self).shelves@);
        &self.shelves[last]
    }

    /// Every shelf, in load order.
    pub fn shelves(&self) -> (r: &[Shelf])
        ensures
            r@ == self.items(),
    {
        self.shelves.as_slice()
    }

    /// Every entry across every shelf, in shelf then file order.
    pub fn entries(&self) -> (r: Vec<&CatalogEntry>)
        ensures
            targets(r@) == all_entries(self.items()),
    {
        let mut out: Vec<&CatalogEntry> = Vec::new();
        let mut i: usize = 0;
        while i < self.shelves.len()
            invariant
                i <= self.shelves@.len(),
                targets(out@) == all_entries(self.shelves@.subrange(0, i as int)),
            decreases self.shelves@.len() - i,
        {
            let shelf = &self.shelves[i];
            let ghost before = targets(out@);
            let mut j: usize = 0;
            while j < shelf.entries.len()
                invariant
                    j <= shelf.entries@.len(),
                    targets(out@) == before + shelf.entries@.subrange(0, j as int),
                decreases shelf.entries@.len() - j,
            {
                let ghost before_j = targets(out@);
                out.push(&shelf.entries[j]);
                assert(targets(out@) =~= before_j.push(shelf.entries@[j as int]));
                assert(targets(out@) =~= before + shelf.entries@.subrange(0, j as int + 1));
                j = j + 1;
            }
            let ghost pre = self.shelves@.subrange(0, i as int + 1);
            assert(pre.drop_last() =~= self.shelves@.subrange(0, i as int));
            assert(shelf.entries@.subrange(0, j as int) =~= shelf.entries@);
            i = i + 1;
        }
        assert(self.shelves@.subrange(0, i as int) =~= self.shelves@);
        out
    }

    /// Consume the set and return the aggregated entries by value.
    pub fn into_entries(self) -> (r: Vec<CatalogEntry>)
        ensures
            r@ == all_entries(self.items()),
    {
        let mut out: Vec<CatalogEntry> = Vec::new();
        let mut shelves = self.shelves;
        let ghost all = shelves@;
        let mut i: usize = 0;
        while i < shelves.len()
            invariant
                i <= shelves@.len(),
                shelves@.len() == all.len(),
                forall|k: int| i <= k < all.len() ==> shelves@[k] == all[k],
                out@ == all_entries(all.subrange(0, i as int)),
            decreases shelves@.len() - i,
        {
            let ghost before = out@;
            let n = shelves[i].entries.len();
            let mut j: usize = 0;
            while j < n
                invariant
                    j <= n,
                    i < shelves@.len(),
                    n == shelves@[i as int].entries@.len(),
                    shelves@[i as int] == all[i as int],
                    out@ == before + all[i as int].entries@.subrange(0, j as int),
                decreases n - j,
            {
                out.push(crate::provenance::copy_entry(&shelves[i].entries[j]));
                assert(out@ =~= before + all[i as int].entries@.subrange(0, j as int + 1));
                j = j + 1;
            }
            let ghost pre = all.subrange(0, i as int + 1);
            assert(pre.drop_last() =~= all.subrange(0, i as int));
            assert(all[i as int].entries@.subrange(0, j as int) =~= all[i as int].entries@);
            i = i + 1;
        }
        assert(all.subrange(0, i as int) =~= all);
        out
    }

    /// The shelves that could not be read or parsed.
    pub fn failed_shelves(&self) -> (r: Vec<&Shelf>)
        ensures
            shelf_targets(r@) == failed(self.items()),
    {
        let mut out: Vec<&Shelf> = Vec::new();
        let mut i: usize = 0;
        while i < self.shelves.len()
            invariant
                i <= self.shelves@.len(),
                shelf_targets(out@) == failed(self.shelves@.subrange(0, i as int)),
            decreases self.shelves@.len() - i,
        {
            let ghost pre = self.shelves@.subrange(0, i as int + 1);
            assert(pre.drop_last() =~= self.shelves@.subrange(0, i as int));
            let ghost before = shelf_targets(out@);
            if self.shelves[i].error.is_some() {
                out.push(&self.shelves[i]);
                assert(shelf_targets(out@) =~= before.push(self.shelves@[i as int]));
            }
            i = i + 1;
        }
        assert(self.shelves@.subrange(0, i as int) =~= self.shelves@);
        out
    }

    /// Total records across every shelf, including unusable ones.
    pub fn total_records(&self) -> (r: usize)
        requires
            records_total(self.items()) <= usize::MAX,
        ensures
            r == records_total(self.items()),
    {
        let mut total: usize = 0;
        let mut i: usize = 0;
        while i < self.shelves.len()
            invariant
                i <= self.shelves@.len(),
                records_total(self.shelves@) <= usize::MAX,
                total == records_total(self.shelves@.subrange(0, i as int)),
            decreases self.shelves@.len() - i,
        {
            let ghost pre = self.shelves@.subrange(0, i as int + 1);
            assert(pre.drop_last() =~= self.shelves@.subrange(0, i as int));
            proof {
                lemma_records_total_prefix(self.shelves@, i as int + 1);
            }
            total = total + self.shelves[i].health.records;
            i = i + 1;
        }
        assert(self.shelves@.subrange(0, i as int) =~= self.shelves@);
        total
    }

    /// Number of shelves in the set.
    pub fn len(&self) -> (r: usize)
        ensures
            r == self.items().len(),
    {
        self.shelves.len()
    }

    /// Whether the set holds no shelves.
    pub fn is_empty(&self) -> (r: bool)
        ensures
            r == (self.items().len() == 0),
    {
        self.shelves.len() == 0
    }
}

/// A prefix's record total never exceeds the whole total.
proof fn lemma_records_total_prefix(shelves: Seq<Shelf>, k: int)
    requires
        0 <= k <= shelves.len(),
    ensures
        records_total(shelves.subrange(0, k)) <= records_total(shelves),
    decreases shelves.len(),
{
    if k < shelves.len() {
        assert(shelves.drop_last() =~= shelves.subrange(0, shelves.len() - 1));
        assert(shelves.drop_last().subrange(0, k) =~= shelves.subrange(0, k));
        lemma_records_total_prefix(shelves.drop_last(), k);
    } else {
        assert(shelves.subrange(0, k) =~= shelves);
    }
}

/// The name a shelf path gets.
pub open spec fn shelf_name_of(path: Seq<char>) -> Seq<char> {
    match spec_file_name(path) {
        Some(n) => if stem_of(n).len() > 0 {
            stem_of(n)
        } else {
            path
        },
        None => path,
    }
}

} // verus!
