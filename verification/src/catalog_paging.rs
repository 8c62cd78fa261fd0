//! Paged browsing and a bounded thumbnail cache for the bag catalog.
//!
//! * [`CatalogPage`] plus [`page_slice`] / [`page_in_collection`] return a
//!   window `[offset, offset + limit)` of already-aggregated entries, never the
//!   whole listing.
//! * [`ThumbnailCache`] is an in-memory LRU bounded on two axes, a number of
//!   thumbnails and a number of bytes. Inserting past either cap evicts the
//!   least-recently-used thumbnails first; a thumbnail larger than the byte cap
//!   is never admitted.

use vstd::prelude::*;

use crate::catalog::CatalogEntry;
use crate::provenance::{copy_string, targets, Provenance};
use crate::prp::PropKey;
use crate::text::str_eq;

verus! {

/// Default number of thumbnails a [`ThumbnailCache`] retains.
pub const DEFAULT_THUMBNAIL_CACHE_ENTRIES: usize = 256;

/// Default byte ceiling for a [`ThumbnailCache`]: 32 MiB.
pub const DEFAULT_THUMBNAIL_CACHE_BYTES: usize = 33554432;

/// Peak-memory budget for an initial listing of the worst-case shelf: 512 MiB.
pub const BAG_LISTING_PEAK_MEMORY_BUDGET_BYTES: usize = 536870912;

/// Warm first-page budget in milliseconds.
pub const FIRST_PAGE_BUDGET_MS: u128 = 500;

/// A window over a catalog listing: the request (`offset`, `limit`), the size
/// of the collection it was cut from (`total`) and how many entries it holds
/// (`returned`).
#[derive(Debug, Clone, Copy, PartialEq, Eq, Structural)]
pub struct CatalogPage {
    /// The requested start index.
    pub offset: usize,
    /// The requested maximum number of entries.
    pub limit: usize,
    /// The number of entries the window was cut from.
    pub total: usize,
    /// The number of entries the window holds.
    pub returned: usize,
}

impl CatalogPage {
    /// A page descriptor; `returned` is clamped to what `offset` and `total`
    /// allow.
    pub fn new(offset: usize, limit: usize, total: usize, returned: usize) -> (r: Self)
        ensures
            r == (CatalogPage {
                offset,
                limit,
                total,
                returned: if total < offset {
                    0
                } else if returned > total - offset {
                    (total - offset) as usize
                } else {
                    returned
                },
            }),
    {
        let room = total.saturating_sub(offset);
        let returned = if returned > room {
            room
        } else {
            returned
        };
        CatalogPage { offset, limit, total, returned }
    }

    /// One past the last entry index this window covers (saturating).
    pub fn end(&self) -> (r: usize)
        ensures
            r == (if self.offset + self.returned > usize::MAX {
                usize::MAX as int
            } else {
                self.offset + self.returned
            }),
    {
        self.offset.saturating_add(self.returned)
    }

    /// Whether entries exist after this window.
    pub fn has_more(&self) -> (r: bool)
        ensures
            r == ((if self.offset + self.returned > usize::MAX {
                usize::MAX as int
            } else {
                self.offset + self.returned
            }) < self.total),
    {
        self.end() < self.total
    }

    /// Whether the window holds no entries.
    pub fn is_empty(&self) -> (r: bool)
        ensures
            r == (self.returned == 0),
    {
        self.returned == 0
    }
}

/// `a` clamped to at most `b`.
pub open spec fn clamp_to(a: int, b: int) -> int {
    if a < b {
        a
    } else {
        b
    }
}

/// Cut `[offset, offset + limit)` out of `entries`, clamping to its bounds.
pub fn page_slice(entries: &[CatalogEntry], offset: usize, limit: usize) -> (r: (
    &[CatalogEntry],
    CatalogPage,
))
    ensures
        ({
            let total = entries@.len() as int;
            let start = clamp_to(offset as int, total);
            let end = clamp_to(start + limit, total);
            &&& r.0@ == entries@.subrange(start, end)
            &&& r.1 == (CatalogPage {
                offset,
                limit,
                total: total as usize,
                returned: (end - start) as usize,
            })
        }),
{
    let total = entries.len();
    let start = if offset < total {
        offset
    } else {
        total
    };
    let reach = start.saturating_add(limit);
    let end = if reach < total {
        reach
    } else {
        total
    };
    (&entries[start..end], CatalogPage::new(offset, limit, total, end - start))
}

/// Whether an entry belongs to the collection named `collection`.
pub open spec fn in_collection(e: CatalogEntry, collection: Seq<char>) -> bool {
    e.provenance matches Provenance::Bag { collection: c, .. } && c@ == collection
}

/// The entries of one collection, in order.
pub open spec fn of_collection(entries: Seq<CatalogEntry>, collection: Seq<char>) -> Seq<
    CatalogEntry,
>
    decreases entries.len(),
{
    if entries.len() == 0 {
        Seq::empty()
    } else if in_collection(entries.last(), collection) {
        of_collection(entries.drop_last(), collection).push(entries.last())
    } else {
        of_collection(entries.drop_last(), collection)
    }
}

/// Whether an entry belongs to `collection`.
fn belongs(e: &CatalogEntry, collection: &str) -> (r: bool)
    ensures
        r == in_collection(*e, collection@),
{
    match &e.provenance {
        Provenance::Bag { collection: c, .. } => str_eq(c.as_str(), collection),
        Provenance::Cache { .. } => false,
    }
}

/// How many entries belong to `collection`.
pub fn count_in_collection(entries: &[CatalogEntry], collection: &str) -> (r: usize)
    ensures
        r == of_collection(entries@, collection@).len(),
{
    let mut count: usize = 0;
    let mut i: usize = 0;
    while i < entries.len()
        invariant
            i <= entries@.len(),
            count == of_collection(entries@.subrange(0, i as int), collection@).len(),
            count <= i,
        decreases entries@.len() - i,
    {
        let ghost prefix = entries@.subrange(0, i as int + 1);
        assert(prefix.drop_last() =~= entries@.subrange(0, i as int));
        if belongs(&entries[i], collection) {
            count = count + 1;
        }
        i = i + 1;
    }
    assert(entries@.subrange(0, i as int) =~= entries@);
    count
}

/// Cut a window out of the entries belonging to `collection`; the page's
/// `total` is that collection's size, not the whole listing's.
pub fn page_in_collection<'a>(
    entries: &'a [CatalogEntry],
    collection: &str,
    offset: usize,
    limit: usize,
) -> (r: (Vec<&'a CatalogEntry>, CatalogPage))
    ensures
        ({
            let matching = of_collection(entries@, collection@);
            let total = matching.len() as int;
            let start = clamp_to(offset as int, total);
            let end = clamp_to(start + limit, total);
            &&& targets(r.0@) == matching.subrange(start, end)
            &&& r.1 == (CatalogPage {
                offset,
                limit,
                total: total as usize,
                returned: (end - start) as usize,
            })
        }),
{
    let ghost matching = of_collection(entries@, collection@);
    let mut all: Vec<&'a CatalogEntry> = Vec::new();
    let mut i: usize = 0;
    while i < entries.len()
        invariant
            i <= entries@.len(),
            matching == of_collection(entries@, collection@),
            targets(all@) == of_collection(entries@.subrange(0, i as int), collection@),
            all@.len() <= i,
        decreases entries@.len() - i,
    {
        let ghost prefix = entries@.subrange(0, i as int + 1);
        assert(prefix.drop_last() =~= entries@.subrange(0, i as int));
        let ghost before = targets(all@);
        if belongs(&entries[i], collection) {
            all.push(&entries[i]);
            assert(targets(all@) =~= before.push(entries@[i as int]));
        }
        i = i + 1;
    }
    assert(entries@.subrange(0, i as int) =~= entries@);
    let total = all.len();
    let start = if offset < total {
        offset
    } else {
        total
    };
    let reach = start.saturating_add(limit);
    let end = if reach < total {
        reach
    } else {
        total
    };
    let mut window: Vec<&'a CatalogEntry> = Vec::new();
    let mut j = start;
    while j < end
        invariant
            start <= j <= end,
            end <= all@.len(),
            targets(window@) == targets(all@).subrange(start as int, j as int),
        decreases end - j,
    {
        let ghost before = targets(window@);
        window.push(all[j]);
        assert(targets(window@) =~= before.push(targets(all@)[j as int]));
        assert(targets(window@) =~= targets(all@).subrange(start as int, j as int + 1));
        j = j + 1;
    }
    let returned = window.len();
    (window, CatalogPage::new(offset, limit, total, returned))
}

/// A bounded, in-memory LRU cache of thumbnail PNGs, keyed by `(id, crc)`.
///
/// Front is least-recently-used, back is most-recently-used. A hit promotes
/// the entry; an insert past a cap evicts from the front.
#[derive(Debug, Clone)]
pub struct ThumbnailCache {
    entries: Vec<(PropKey, Vec<u8>)>,
    capacity_entries: usize,
    capacity_bytes: usize,
    bytes: usize,
    hits: usize,
    misses: usize,
    evictions: usize,
    rejected: usize,
}

/// The abstract state of a thumbnail cache.
pub struct CacheView {
    /// `(key, png)` pairs, least-recently-used first.
    pub entries: Seq<(PropKey, Seq<u8>)>,
    /// The entry-count cap.
    pub capacity_entries: nat,
    /// The byte cap.
    pub capacity_bytes: nat,
    /// The byte counter.
    pub bytes: nat,
    /// Successful lookups.
    pub hits: nat,
    /// Failed lookups.
    pub misses: nat,
    /// Entries evicted to stay within a cap.
    pub evictions: nat,
    /// Thumbnails refused because one alone exceeded the byte cap.
    pub rejected: nat,
}

/// The views of cached pairs.
pub open spec fn pairs_view(entries: Seq<(PropKey, Vec<u8>)>) -> Seq<(PropKey, Seq<u8>)> {
    Seq::new(entries.len(), |i: int| (entries[i].0, entries[i].1@))
}

impl View for ThumbnailCache {
    type V = CacheView;

    closed spec fn view(&self) -> CacheView {
        CacheView {
            entries: pairs_view(self.entries@),
            capacity_entries: self.capacity_entries as nat,
            capacity_bytes: self.capacity_bytes as nat,
            bytes: self.bytes as nat,
            hits: self.hits as nat,
            misses: self.misses as nat,
            evictions: self.evictions as nat,
            rejected: self.rejected as nat,
        }
    }
}

/// Saturating addition in `usize`.
pub open spec fn sat_add(a: nat, b: nat) -> nat {
    if a + b > usize::MAX {
        usize::MAX as nat
    } else {
        a + b
    }
}

/// Saturating subtraction.
pub open spec fn sat_sub(a: nat, b: nat) -> nat {
    if a < b {
        0
    } else {
        (a - b) as nat
    }
}

/// The position of `key` at or after `i`.
pub open spec fn key_position(entries: Seq<(PropKey, Seq<u8>)>, key: PropKey, i: int) -> Option<
    int,
>
    decreases entries.len() - i,
{
    if i < 0 || i >= entries.len() {
        None
    } else if entries[i].0 == key {
        Some(i)
    } else {
        key_position(entries, key, i + 1)
    }
}

/// Whether the cache must evict another entry.
pub open spec fn over_cap(s: CacheView) -> bool {
    s.entries.len() > 1 && (s.entries.len() > s.capacity_entries || (s.capacity_bytes > 0
        && s.bytes > s.capacity_bytes))
}

/// The state once least-recently-used entries are evicted until both caps hold
/// (or one entry is left).
pub open spec fn trimmed(s: CacheView) -> CacheView
    decreases s.entries.len(),
{
    if over_cap(s) {
        trimmed(
            CacheView {
                entries: s.entries.drop_first(),
                bytes: sat_sub(s.bytes, s.entries[0].1.len()),
                evictions: sat_add(s.evictions, 1),
                ..s
            },
        )
    } else {
        s
    }
}

/// What inserting `(key, png)` makes of a cache.
pub open spec fn spec_insert(s: CacheView, key: PropKey, png: Seq<u8>) -> CacheView {
    if s.capacity_entries == 0 {
        s
    } else if s.capacity_bytes > 0 && png.len() > s.capacity_bytes {
        CacheView { rejected: sat_add(s.rejected, 1), ..s }
    } else {
        let removed = match key_position(s.entries, key, 0) {
            Some(p) => CacheView {
                entries: s.entries.remove(p),
                bytes: sat_sub(s.bytes, s.entries[p].1.len()),
                ..s
            },
            None => s,
        };
        trimmed(
            CacheView {
                entries: removed.entries.push((key, png)),
                bytes: sat_add(removed.bytes, png.len()),
                ..removed
            },
        )
    }
}

/// What a lookup of `key` makes of a cache: a hit moves the entry to the back.
pub open spec fn spec_get(s: CacheView, key: PropKey) -> CacheView {
    match key_position(s.entries, key, 0) {
        None => CacheView { misses: sat_add(s.misses, 1), ..s },
        Some(p) => CacheView {
            entries: s.entries.remove(p).push(s.entries[p]),
            hits: sat_add(s.hits, 1),
            ..s
        },
    }
}

/// The found position lies inside the entries.
pub proof fn lemma_key_position_in_range(entries: Seq<(PropKey, Seq<u8>)>, key: PropKey, i: int)
    ensures
        key_position(entries, key, i) matches Some(k) ==> i <= k < entries.len() && entries[k].0
            == key,
    decreases entries.len() - i,
{
    if 0 <= i < entries.len() && entries[i].0 != key {
        lemma_key_position_in_range(entries, key, i + 1);
    }
}

impl ThumbnailCache {
    /// An empty cache with the given caps. A cap of zero disables that axis
    /// (`capacity_entries == 0` disables the cache entirely).
    pub fn with_caps(capacity_entries: usize, capacity_bytes: usize) -> (r: Self)
        ensures
            r@ == (CacheView {
                entries: Seq::empty(),
                capacity_entries: capacity_entries as nat,
                capacity_bytes: capacity_bytes as nat,
                bytes: 0,
                hits: 0,
                misses: 0,
                evictions: 0,
                rejected: 0,
            }),
    {
        let r = ThumbnailCache {
            entries: Vec::new(),
            capacity_entries,
            capacity_bytes,
            bytes: 0,
            hits: 0,
            misses: 0,
            evictions: 0,
            rejected: 0,
        };
        assert(pairs_view(r.entries@) =~= Seq::empty());
        r
    }

    /// An empty cache with the default caps.
    pub fn new() -> (r: Self)
        ensures
            r@ == (CacheView {
                entries: Seq::empty(),
                capacity_entries: DEFAULT_THUMBNAIL_CACHE_ENTRIES as nat,
                capacity_bytes: DEFAULT_THUMBNAIL_CACHE_BYTES as nat,
                bytes: 0,
                hits: 0,
                misses: 0,
                evictions: 0,
                rejected: 0,
            }),
    {
        Self::with_caps(DEFAULT_THUMBNAIL_CACHE_ENTRIES, DEFAULT_THUMBNAIL_CACHE_BYTES)
    }

    /// The entry-count cap.
    pub fn capacity_entries(&self) -> (r: usize)
        ensures
            r == self@.capacity_entries,
    {
        self.capacity_entries
    }

    /// The byte cap.
    pub fn capacity_bytes(&self) -> (r: usize)
        ensures
            r == self@.capacity_bytes,
    {
        self.capacity_bytes
    }

    /// Thumbnails currently held.
    pub fn len(&self) -> (r: usize)
        ensures
            r == self@.entries.len(),
    {
        self.entries.len()
    }

    /// Whether the cache holds nothing.
    pub fn is_empty(&self) -> (r: bool)
        ensures
            r == (self@.entries.len() == 0),
    {
        self.entries.len() == 0
    }

    /// Bytes of PNG data currently held.
    pub fn memory_bytes(&self) -> (r: usize)
        ensures
            r == self@.bytes,
    {
        self.bytes
    }

    /// Successful lookups since construction.
    pub fn hits(&self) -> (r: usize)
        ensures
            r == self@.hits,
    {
        self.hits
    }

    /// Failed lookups since construction.
    pub fn misses(&self) -> (r: usize)
        ensures
            r == self@.misses,
    {
        self.misses
    }

    /// Entries evicted to stay within a cap.
    pub fn evictions(&self) -> (r: usize)
        ensures
            r == self@.evictions,
    {
        self.evictions
    }

    /// Thumbnails refused because one alone exceeded the byte cap.
    pub fn rejected(&self) -> (r: usize)
        ensures
            r == self@.rejected,
    {
        self.rejected
    }

    /// The position of `key`, if cached.
    fn position(&self, key: PropKey) -> (r: Option<usize>)
        ensures
            r matches Some(p) ==> key_position(self@.entries, key, 0) == Some(p as int),
            r is None ==> key_position(self@.entries, key, 0) is None,
    {
        let ghost ev = self@.entries;
        let mut i: usize = 0;
        while i < self.entries.len()
            invariant
                i <= self.entries@.len(),
                ev == pairs_view(self.entries@),
                key_position(ev, key, 0) == key_position(ev, key, i as int),
            decreases self.entries@.len() - i,
        {
            if self.entries[i].0 == key {
                return Some(i);
            }
            i = i + 1;
        }
        None
    }

    /// Whether `key` is currently cached.
    pub fn contains(&self, key: PropKey) -> (r: bool)
        ensures
            r == (key_position(self@.entries, key, 0) is Some),
    {
        self.position(key).is_some()
    }

    /// Look `key` up, promoting it to most-recently-used on a hit.
    pub fn get(&mut self, key: PropKey) -> (r: Option<&[u8]>)
        ensures
            final(self)@ == spec_get(old(self)@, key),
            match key_position(old(self)@.entries, key, 0) {
                Some(p) => r matches Some(b) && b@ == old(self)@.entries[p].1,
                None => r is None,
            },
    {
        proof {
            lemma_key_position_in_range(self@.entries, key, 0);
        }
        let position = match self.position(key) {
            Some(p) => p,
            None => {
                self.misses = self.misses.saturating_add(1);
                return None;
            },
        };
        let ghost old_pairs = pairs_view(self.entries@);
        let len = self.entries.len();
        assert(position < len);
        if position + 1 != len {
            let entry = self.entries.remove(position);
            self.entries.push(entry);
        }
        self.hits = self.hits.saturating_add(1);
        proof {
            assert(pairs_view(self.entries@) =~= old_pairs.remove(position as int).push(
                old_pairs[position as int],
            ));
        }
        let last = self.entries.len() - 1;
        Some(self.entries[last].1.as_slice())
    }

    /// Insert or refresh `key` with `bytes`, evicting to stay within both caps.
    ///
    /// A thumbnail larger than the byte cap is refused rather than admitted:
    /// keeping it would evict everything else and still leave the cache over
    /// budget.
    pub fn insert(&mut self, key: PropKey, bytes: Vec<u8>)
        ensures
            final(self)@ == spec_insert(old(self)@, key, bytes@),
    {
        if self.capacity_entries == 0 {
            return;
        }
        if self.capacity_bytes > 0 && bytes.len() > self.capacity_bytes {
            self.rejected = self.rejected.saturating_add(1);
            return;
        }
        proof {
            lemma_key_position_in_range(self@.entries, key, 0);
        }
        let ghost pairs0 = pairs_view(self.entries@);
        match self.position(key) {
            Some(position) => {
                let old_entry = self.entries.remove(position);
                self.bytes = self.bytes.saturating_sub(old_entry.1.len());
                assert(pairs_view(self.entries@) =~= pairs0.remove(position as int));
            },
            None => {},
        }
        let n = bytes.len();
        let ghost png = bytes@;
        let ghost pairs1 = pairs_view(self.entries@);
        self.bytes = self.bytes.saturating_add(n);
        self.entries.push((key, bytes));
        assert(pairs_view(self.entries@) =~= pairs1.push((key, png)));
        self.trim();
    }

    /// Drop every cached thumbnail, keeping the counters.
    pub fn clear(&mut self)
        ensures
            final(self)@ == (CacheView { entries: Seq::empty(), bytes: 0, ..old(self)@ }),
    {
        self.entries.clear();
        self.bytes = 0;
        assert(pairs_view(self.entries@) =~= Seq::empty());
    }

    /// Evict least-recently-used entries until both caps hold; at least one
    /// entry is always kept.
    fn trim(&mut self)
        ensures
            final(self)@ == trimmed(old(self)@),
    {
        while self.entries.len() > 1 && (self.entries.len() > self.capacity_entries || (
        self.capacity_bytes > 0 && self.bytes > self.capacity_bytes))
            invariant
                trimmed(self@) == trimmed(old(self)@),
            decreases self.entries@.len(),
        {
            let ghost before = self@;
            let evicted = self.entries.remove(0);
            self.bytes = self.bytes.saturating_sub(evicted.1.len());
            self.evictions = self.evictions.saturating_add(1);
            assert(pairs_view(self.entries@) =~= before.entries.drop_first());
            assert(self@ == CacheView {
                entries: before.entries.drop_first(),
                bytes: sat_sub(before.bytes, before.entries[0].1.len()),
                evictions: sat_add(before.evictions, 1),
                ..before
            });
        }
    }
}

/// The PNG bytes a list of cached pairs holds.
pub open spec fn held(entries: Seq<(PropKey, Seq<u8>)>) -> nat
    decreases entries.len(),
{
    if entries.len() == 0 {
        0
    } else {
        held(entries.drop_last()) + entries.last().1.len()
    }
}

/// Whether no key is cached twice.
pub open spec fn distinct_keys(entries: Seq<(PropKey, Seq<u8>)>) -> bool {
    forall|i: int, j: int| 0 <= i < j < entries.len() ==> #[trigger] entries[i].0 != #[trigger] entries[j].0
}

/// What every cache this module builds satisfies: distinct keys, and a byte
/// counter equal to the bytes held.
pub open spec fn cache_ok(s: CacheView) -> bool {
    &&& distinct_keys(s.entries)
    &&& s.bytes == held(s.entries)
}

proof fn lemma_held_remove(s: Seq<(PropKey, Seq<u8>)>, p: int)
    requires
        0 <= p < s.len(),
    ensures
        held(s.remove(p)) + s[p].1.len() == held(s),
    decreases s.len(),
{
    if p == s.len() - 1 {
        assert(s.remove(p) =~= s.drop_last());
    } else {
        lemma_held_remove(s.drop_last(), p);
        assert(s.remove(p) =~= s.drop_last().remove(p).push(s.last()));
        assert(s.remove(p).drop_last() =~= s.drop_last().remove(p));
    }
}

proof fn lemma_held_push(s: Seq<(PropKey, Seq<u8>)>, x: (PropKey, Seq<u8>))
    ensures
        held(s.push(x)) == held(s) + x.1.len(),
{
    assert(s.push(x).drop_last() =~= s);
}

/// Eviction keeps a suffix of the entries (the most recently used), keeps
/// the counters consistent, and stops once both caps hold or one entry is
/// left.
proof fn lemma_trimmed_ok(s: CacheView)
    requires
        cache_ok(s),
    ensures
        cache_ok(trimmed(s)),
        !over_cap(trimmed(s)),
        trimmed(s).entries.len() <= s.entries.len(),
        trimmed(s).entries == s.entries.subrange(
            s.entries.len() - trimmed(s).entries.len(),
            s.entries.len() as int,
        ),
        s.entries.len() > 0 ==> trimmed(s).entries.len() > 0,
        trimmed(s).capacity_entries == s.capacity_entries,
        trimmed(s).capacity_bytes == s.capacity_bytes,
        trimmed(s).rejected == s.rejected,
    decreases s.entries.len(),
{
    if over_cap(s) {
        let e = s.entries;
        lemma_held_remove(e, 0);
        assert(e.remove(0) =~= e.drop_first());
        let next = CacheView {
            entries: e.drop_first(),
            bytes: sat_sub(s.bytes, e[0].1.len()),
            evictions: sat_add(s.evictions, 1),
            ..s
        };
        assert(distinct_keys(next.entries)) by {
            assert forall|i: int, j: int| 0 <= i < j < next.entries.len() implies #[trigger] next.entries[i].0
                != #[trigger] next.entries[j].0 by {
                assert(next.entries[i] == e[i + 1] && next.entries[j] == e[j + 1]);
            }
        }
        lemma_trimmed_ok(next);
        let t = trimmed(s);
        assert(e.drop_first().subrange(e.len() - 1 - t.entries.len(), e.len() - 1) =~= e.subrange(
            e.len() - t.entries.len(),
            e.len() as int,
        ));
    } else {
        assert(s.entries.subrange(0, s.entries.len() as int) =~= s.entries);
    }
}

/// Inserting into a cache keeps its keys distinct and its byte counter
/// exact; a zero entry cap ignores the insert; a thumbnail over a non-zero
/// byte cap is refused and counted; otherwise the key ends up as the most
/// recently used entry, held once, only least-recently-used entries are
/// evicted, and both caps hold (the byte cap unless the new thumbnail is
/// the only entry left, which it then fits).
pub proof fn lemma_insert_keeps(s: CacheView, key: PropKey, png: Seq<u8>)
    requires
        cache_ok(s),
        held(s.entries) + png.len() <= usize::MAX,
    ensures
        ({
            let t = spec_insert(s, key, png);
            let base = match key_position(s.entries, key, 0) {
                Some(p) => s.entries.remove(p),
                None => s.entries,
            }.push((key, png));
            &&& cache_ok(t)
            &&& s.capacity_entries == 0 ==> t == s
            &&& (s.capacity_entries > 0 && s.capacity_bytes > 0 && png.len() > s.capacity_bytes)
                ==> t.entries == s.entries && t.rejected == sat_add(s.rejected, 1)
            &&& (s.capacity_entries > 0 && !(s.capacity_bytes > 0 && png.len() > s.capacity_bytes))
                ==> {
                &&& t.entries.len() > 0
                &&& t.entries.last() == (key, png)
                &&& t.entries == base.subrange(base.len() - t.entries.len(), base.len() as int)
                &&& t.entries.len() <= s.capacity_entries
                &&& (s.capacity_bytes > 0 ==> t.bytes <= s.capacity_bytes)
            }
        }),
{
    if s.capacity_entries > 0 && !(s.capacity_bytes > 0 && png.len() > s.capacity_bytes) {
        lemma_key_position_in_range(s.entries, key, 0);
        let removed = match key_position(s.entries, key, 0) {
            Some(p) => CacheView {
                entries: s.entries.remove(p),
                bytes: sat_sub(s.bytes, s.entries[p].1.len()),
                ..s
            },
            None => s,
        };
        match key_position(s.entries, key, 0) {
            Some(p) => {
                lemma_held_remove(s.entries, p);
            },
            None => {},
        }
        // The key is no longer held.
        assert forall|j: int| 0 <= j < removed.entries.len() implies #[trigger] removed.entries[j].0 != key by {
            match key_position(s.entries, key, 0) {
                Some(p) => {
                    if j < p {
                        assert(removed.entries[j] == s.entries[j]);
                    } else {
                        assert(removed.entries[j] == s.entries[j + 1]);
                    }
                },
                None => {
                    lemma_key_absent(s.entries, key, 0, j);
                },
            }
        }
        assert(distinct_keys(removed.entries)) by {
            match key_position(s.entries, key, 0) {
                Some(p) => {
                    assert forall|i: int, j: int| 0 <= i < j < removed.entries.len() implies #[trigger] removed.entries[i].0
                        != #[trigger] removed.entries[j].0 by {
                        let a = if i < p { i } else { i + 1 };
                        let b = if j < p { j } else { j + 1 };
                        assert(removed.entries[i] == s.entries[a]);
                        assert(removed.entries[j] == s.entries[b]);
                    }
                },
                None => {},
            }
        }
        let pushed = CacheView {
            entries: removed.entries.push((key, png)),
            bytes: sat_add(removed.bytes, png.len()),
            ..removed
        };
        lemma_held_push(removed.entries, (key, png));
        assert(distinct_keys(pushed.entries)) by {
            assert forall|i: int, j: int| 0 <= i < j < pushed.entries.len() implies #[trigger] pushed.entries[i].0
                != #[trigger] pushed.entries[j].0 by {
                assert(pushed.entries[i] == removed.entries[i]);
                if j < removed.entries.len() {
                    assert(pushed.entries[j] == removed.entries[j]);
                }
            }
        }
        lemma_trimmed_ok(pushed);
        let t = trimmed(pushed);
        assert(t == spec_insert(s, key, png));
        assert(t.entries.last() == pushed.entries.last());
        assert(cache_ok(t));
        assert(t.entries.len() <= s.capacity_entries);
        if s.capacity_bytes > 0 && t.entries.len() == 1 {
            assert(t.entries =~= seq![(key, png)]);
            assert(held(t.entries) == held(Seq::<(PropKey, Seq<u8>)>::empty()) + png.len()) by {
                assert(t.entries.drop_last() =~= Seq::<(PropKey, Seq<u8>)>::empty());
            }
        }
        assert(s.capacity_bytes > 0 ==> t.bytes <= s.capacity_bytes);
    }
}

proof fn lemma_key_absent(entries: Seq<(PropKey, Seq<u8>)>, key: PropKey, i: int, j: int)
    requires
        key_position(entries, key, i) is None,
        0 <= i <= j < entries.len(),
    ensures
        entries[j].0 != key,
    decreases j - i,
{
    if i < j {
        lemma_key_absent(entries, key, i + 1, j);
    }
}

} // verus!
