//! A read-only catalog over the props the client's cache holds.
//!
//! It turns a parsed [`PropBag`] into a flat list of browsable entries plus
//! the two payloads a picker needs: a JSON catalog and a PNG thumbnail per
//! prop. The synthetic built-in ids are skipped, an id is listed once (its
//! first record wins), a record whose header does not parse is skipped, and
//! every entry is tagged with the provenance of the source, so a catalog of
//! the client's cache can never satisfy a bag query.
//!
//! A display name is taken from the 32-byte bundle prefix, whose interior is
//! not decoded: the longest printable run of three or more characters that
//! holds an alphanumeric one, or none.

use vstd::prelude::*;

use std::collections::HashSet;

use crate::bag::{spec_prop_bytes, BagEntry, BagView, EntryView, PropBag, BAG_PREFIX_LEN};
use crate::header::PropHeader;
use crate::png_codec::png_encoded;
use crate::catalog::{entries_json, spec_entries_json, CatalogEntry};
use crate::provenance::{bag_listing, bag_only, targets};
use crate::error::PropError;
use crate::header::spec_parse_header;
use crate::provenance::{copy_string, Provenance};
use crate::text::{trim, trimmed};
use crate::trash_doc::utf8_string;

verus! {

/// First id of the client's synthetic built-in range, skipped by the catalog.
pub const PLACEHOLDER_ID_START: u32 = 0x8000_0000;

/// One past the last synthetic built-in id.
pub const PLACEHOLDER_ID_END: u32 = 0x8000_0100;

/// Whether `char::is_alphanumeric` holds of a character.
pub uninterp spec fn is_alnum(c: char) -> bool;

/// Whether a character is alphanumeric, by `char::is_alphanumeric`.
///
/// Trusted: the answer is std's (Unicode `Alphabetic` or `Numeric`), named by
/// [`is_alnum`].
#[verifier::external_body]
pub(crate) fn char_is_alphanumeric(c: char) -> (r: bool)
    ensures
        r == is_alnum(c),
{
    c.is_alphanumeric()
}

/// A byte that may belong to a printable run: printable ASCII, or any byte
/// of a multi-byte UTF-8 sequence.
pub open spec fn printable(b: u8) -> bool {
    (0x20 <= b <= 0x7e) || b >= 0x80
}

/// A byte that is not plain ASCII.
pub open spec fn high(b: u8) -> bool {
    b >= 0x80
}

/// The bytes cut at every byte that is not printable: always at least one
/// (possibly empty) piece.
pub open spec fn runs(p: Seq<u8>) -> Seq<Seq<u8>>
    decreases p.len(),
{
    if p.len() == 0 {
        seq![Seq::empty()]
    } else {
        let prev = runs(p.drop_last());
        if !printable(p.last()) {
            prev.push(Seq::empty())
        } else {
            prev.update(prev.len() - 1, prev.last().push(p.last()))
        }
    }
}

/// The bytes cut at every non-ASCII byte: always at least one piece.
pub open spec fn ascii_parts(p: Seq<u8>) -> Seq<Seq<u8>>
    decreases p.len(),
{
    if p.len() == 0 {
        seq![Seq::empty()]
    } else {
        let prev = ascii_parts(p.drop_last());
        if high(p.last()) {
            prev.push(Seq::empty())
        } else {
            prev.update(prev.len() - 1, prev.last().push(p.last()))
        }
    }
}

/// The trimmed text of UTF-8 bytes, when they are UTF-8 and it is not empty.
pub open spec fn kept_text(bytes: Seq<u8>) -> Seq<Seq<char>> {
    if vstd::utf8::valid_utf8(bytes) && trimmed(vstd::utf8::decode_utf8(bytes)).len() > 0 {
        seq![trimmed(vstd::utf8::decode_utf8(bytes))]
    } else {
        Seq::empty()
    }
}

/// The texts of the first `k` pieces.
pub open spec fn kept_texts(parts: Seq<Seq<u8>>, k: int) -> Seq<Seq<char>>
    decreases k,
{
    if k <= 0 {
        Seq::empty()
    } else {
        kept_texts(parts, k - 1) + kept_text(parts[k - 1])
    }
}

/// The texts one run yields: the whole run when it is UTF-8, else each
/// ASCII stretch of it.
pub open spec fn run_texts(run: Seq<u8>) -> Seq<Seq<char>> {
    if vstd::utf8::valid_utf8(run) {
        kept_text(run)
    } else {
        let parts = ascii_parts(run);
        kept_texts(parts, parts.len() as int)
    }
}

/// The texts of the first `k` runs.
pub open spec fn texts_upto(rs: Seq<Seq<u8>>, k: int) -> Seq<Seq<char>>
    decreases k,
{
    if k <= 0 {
        Seq::empty()
    } else {
        texts_upto(rs, k - 1) + run_texts(rs[k - 1])
    }
}

/// Every candidate text of a prefix, in order.
pub open spec fn candidates(prefix: Seq<u8>) -> Seq<Seq<char>> {
    let rs = runs(prefix);
    texts_upto(rs, rs.len() as int)
}

/// Whether a text may name a prop: three or more characters, one of them
/// alphanumeric.
pub open spec fn qualifies(t: Seq<char>) -> bool {
    t.len() >= 3 && exists|i: int| 0 <= i < t.len() && is_alnum(#[trigger] t[i])
}

/// The longest qualifying text; of equally long ones, the last.
pub open spec fn longest(cs: Seq<Seq<char>>) -> Option<Seq<char>>
    decreases cs.len(),
{
    if cs.len() == 0 {
        None
    } else {
        let prev = longest(cs.drop_last());
        let c = cs.last();
        if qualifies(c) && (prev is None || c.len() >= prev->Some_0.len()) {
            Some(c)
        } else {
            prev
        }
    }
}

/// The name a bundle prefix yields.
pub open spec fn spec_extract_name(prefix: Seq<u8>) -> Option<Seq<char>> {
    longest(candidates(prefix))
}

proof fn lemma_runs_nonempty(p: Seq<u8>)
    ensures
        runs(p).len() >= 1,
    decreases p.len(),
{
    if p.len() > 0 {
        lemma_runs_nonempty(p.drop_last());
    }
}

proof fn lemma_parts_nonempty(p: Seq<u8>)
    ensures
        ascii_parts(p).len() >= 1,
    decreases p.len(),
{
    if p.len() > 0 {
        lemma_parts_nonempty(p.drop_last());
    }
}

/// The views of a list of strings.
pub open spec fn texts_view(v: Seq<String>) -> Seq<Seq<char>> {
    Seq::new(v.len(), |i: int| v[i]@)
}

/// Append the trimmed text of `bytes`, when they are UTF-8 and it is not
/// empty.
fn keep_text(bytes: Vec<u8>, out: &mut Vec<String>)
    ensures
        texts_view(final(out)@) == texts_view(old(out)@) + kept_text(bytes@),
{
    let ghost b = bytes@;
    match utf8_string(bytes) {
        Ok(s) => {
            let t = trim(s.as_str());
            if t.unicode_len() > 0 {
                let ghost before = texts_view(out@);
                out.push(t);
                assert(texts_view(out@) =~= before + kept_text(b));
            } else {
                assert(kept_text(b) =~= Seq::<Seq<char>>::empty());
                assert(texts_view(out@) =~= texts_view(out@) + kept_text(b));
            }
        },
        Err(_) => {
            assert(kept_text(b) =~= Seq::<Seq<char>>::empty());
            assert(texts_view(out@) =~= texts_view(out@) + kept_text(b));
        },
    }
}

/// A copy of some bytes.
fn copy_bytes(b: &Vec<u8>) -> (r: Vec<u8>)
    ensures
        r@ == b@,
{
    crate::codec::thirtytwo::slice_to_vec(b.as_slice())
}

/// Append the texts one run yields.
fn keep_run(run: &Vec<u8>, out: &mut Vec<String>)
    ensures
        texts_view(final(out)@) == texts_view(old(out)@) + run_texts(run@),
{
    let ghost start = texts_view(out@);
    match utf8_string(copy_bytes(run)) {
        Ok(_) => {
            keep_text(copy_bytes(run), out);
            return;
        },
        Err(_) => {},
    }
    let ghost parts = ascii_parts(run@);
    let mut part: Vec<u8> = Vec::new();
    let mut i: usize = 0;
    while i < run.len()
        invariant
            i <= run@.len(),
            parts == ascii_parts(run@),
            !vstd::utf8::valid_utf8(run@),
            ascii_parts(run@.subrange(0, i as int)).len() >= 1,
            part@ == ascii_parts(run@.subrange(0, i as int)).last(),
            texts_view(out@) == start + kept_texts(
                ascii_parts(run@.subrange(0, i as int)),
                ascii_parts(run@.subrange(0, i as int)).len() - 1,
            ),
        decreases run@.len() - i,
    {
        let ghost pre = run@.subrange(0, i as int);
        let ghost next = run@.subrange(0, i as int + 1);
        assert(next.drop_last() =~= pre);
        proof {
            lemma_parts_nonempty(pre);
        }
        let b = run[i];
        if b >= 0x80 {
            let mut done: Vec<u8> = Vec::new();
            std::mem::swap(&mut done, &mut part);
            keep_text(done, out);
            let ghost ap = ascii_parts(pre);
            assert(ascii_parts(next) == ap.push(Seq::empty()));
            assert(kept_texts(ascii_parts(next), ap.len() as int) == kept_texts(ap, ap.len() as int))
                by {
                lemma_kept_texts_agree(ascii_parts(next), ap, ap.len() as int);
            }
            assert(kept_texts(ap, ap.len() as int) == kept_texts(ap, ap.len() - 1) + kept_text(
                ap.last(),
            ));
        } else {
            part.push(b);
            let ghost ap = ascii_parts(pre);
            let ghost nap = ascii_parts(next);
            assert(nap == ap.update(ap.len() - 1, ap.last().push(b)));
            assert(kept_texts(nap, nap.len() - 1) == kept_texts(ap, ap.len() - 1)) by {
                assert forall|j: int| 0 <= j < ap.len() - 1 implies nap[j] == ap[j] by {}
                lemma_kept_texts_agree(nap, ap, ap.len() - 1);
            }
        }
        i = i + 1;
    }
    assert(run@.subrange(0, i as int) =~= run@);
    keep_text(part, out);
    assert(texts_view(out@) =~= start + run_texts(run@));
}

proof fn lemma_kept_texts_agree(a: Seq<Seq<u8>>, b: Seq<Seq<u8>>, k: int)
    requires
        0 <= k <= a.len(),
        k <= b.len(),
        forall|j: int| 0 <= j < k ==> a[j] == b[j],
    ensures
        kept_texts(a, k) == kept_texts(b, k),
    decreases k,
{
    if k > 0 {
        lemma_kept_texts_agree(a, b, k - 1);
    }
}

proof fn lemma_texts_upto_agree(a: Seq<Seq<u8>>, b: Seq<Seq<u8>>, k: int)
    requires
        0 <= k <= a.len(),
        k <= b.len(),
        forall|j: int| 0 <= j < k ==> a[j] == b[j],
    ensures
        texts_upto(a, k) == texts_upto(b, k),
    decreases k,
{
    if k > 0 {
        lemma_texts_upto_agree(a, b, k - 1);
    }
}

/// Every candidate text of a bundle prefix, in order.
fn candidate_texts(prefix: &[u8]) -> (r: Vec<String>)
    ensures
        texts_view(r@) == candidates(prefix@),
{
    let mut out: Vec<String> = Vec::new();
    let mut run: Vec<u8> = Vec::new();
    let mut i: usize = 0;
    assert(texts_view(out@) =~= Seq::<Seq<char>>::empty());
    while i < prefix.len()
        invariant
            i <= prefix@.len(),
            runs(prefix@.subrange(0, i as int)).len() >= 1,
            run@ == runs(prefix@.subrange(0, i as int)).last(),
            texts_view(out@) == texts_upto(
                runs(prefix@.subrange(0, i as int)),
                runs(prefix@.subrange(0, i as int)).len() - 1,
            ),
        decreases prefix@.len() - i,
    {
        let ghost pre = prefix@.subrange(0, i as int);
        let ghost next = prefix@.subrange(0, i as int + 1);
        assert(next.drop_last() =~= pre);
        proof {
            lemma_runs_nonempty(pre);
        }
        let b = prefix[i];
        let ghost rp = runs(pre);
        if (0x20 <= b && b <= 0x7e) || b >= 0x80 {
            run.push(b);
            let ghost rn = runs(next);
            assert(rn == rp.update(rp.len() - 1, rp.last().push(b)));
            assert(texts_upto(rn, rn.len() - 1) == texts_upto(rp, rp.len() - 1)) by {
                lemma_texts_upto_agree(rn, rp, rp.len() - 1);
            }
        } else {
            let mut done: Vec<u8> = Vec::new();
            std::mem::swap(&mut done, &mut run);
            keep_run(&done, &mut out);
            let ghost rn = runs(next);
            assert(rn == rp.push(Seq::empty()));
            assert(texts_upto(rn, rp.len() as int) == texts_upto(rp, rp.len() as int)) by {
                lemma_texts_upto_agree(rn, rp, rp.len() as int);
            }
        }
        i = i + 1;
    }
    assert(prefix@.subrange(0, i as int) =~= prefix@);
    keep_run(&run, &mut out);
    out
}

/// Whether a text qualifies as a name.
fn qualifies_text(t: &String) -> (r: bool)
    ensures
        r == qualifies(t@),
{
    let n = t.as_str().unicode_len();
    if n < 3 {
        return false;
    }
    let mut i: usize = 0;
    while i < n
        invariant
            n == t@.len(),
            n >= 3,
            i <= n,
            forall|j: int| 0 <= j < i ==> !is_alnum(#[trigger] t@[j]),
        decreases n - i,
    {
        let c = t.as_str().get_char(i);
        if char_is_alphanumeric(c) {
            assert(is_alnum(t@[i as int]));
            return true;
        }
        i = i + 1;
    }
    false
}

/// The name a bundle prefix yields: the longest printable run of three or
/// more characters holding an alphanumeric one (the last of equally long
/// ones), or `None`. It never invents text.
pub fn extract_name(prefix: &[u8]) -> (r: Option<String>)
    ensures
        match spec_extract_name(prefix@) {
            Some(n) => r matches Some(s) && s@ == n,
            None => r is None,
        },
{
    let cands = candidate_texts(prefix);
    let ghost cv = texts_view(cands@);
    let mut best: Option<String> = None;
    let mut i: usize = 0;
    while i < cands.len()
        invariant
            i <= cands@.len(),
            cv == texts_view(cands@),
            match longest(cv.subrange(0, i as int)) {
                Some(n) => best matches Some(s) && s@ == n,
                None => best is None,
            },
        decreases cands@.len() - i,
    {
        let ghost next = cv.subrange(0, i as int + 1);
        assert(next.drop_last() =~= cv.subrange(0, i as int));
        assert(next.last() == cands@[i as int]@);
        let c = &cands[i];
        if qualifies_text(c) {
            let take = match &best {
                None => true,
                Some(b) => c.as_str().unicode_len() >= b.as_str().unicode_len(),
            };
            if take {
                best = Some(copy_string(c));
            }
        }
        i = i + 1;
    }
    assert(cv.subrange(0, i as int) =~= cv);
    best
}

/// The id (first word) of each complete 16-byte big-endian record of a
/// `.favs` file; trailing bytes are ignored.
pub open spec fn spec_record_ids(bytes: Seq<u8>) -> Seq<u32> {
    Seq::new(
        bytes.len() / crate::bag::BAG_INDEX_RECORD_LEN as nat,
        |i: int| crate::bag::index_word(bytes, i, 0),
    )
}

/// The ids a `.favs` file lists.
pub fn record_ids(bytes: &[u8]) -> (r: Vec<u32>)
    ensures
        r@ == spec_record_ids(bytes@),
{
    let len = bytes.len();
    let n = len / 16;
    let mut out: Vec<u32> = Vec::new();
    let mut i: usize = 0;
    while i < n
        invariant
            n == bytes@.len() / 16,
            len == bytes@.len(),
            i <= n,
            out@ == spec_record_ids(bytes@).subrange(0, i as int),
        decreases n - i,
    {
        assert(i * 16 + 16 <= n * 16) by (nonlinear_arith)
            requires
                i < n,
        ;
        assert(n * 16 <= bytes@.len()) by (nonlinear_arith)
            requires
                n == bytes@.len() / 16,
        ;
        let at = i * 16;
        let v = crate::bag::read_be_u32(bytes, at);
        out.push(v);
        i = i + 1;
        assert(out@ =~= spec_record_ids(bytes@).subrange(0, i as int));
    }
    out
}

/// Whether an id lies in the client's synthetic built-in range.
pub open spec fn is_placeholder(id: u32) -> bool {
    PLACEHOLDER_ID_START <= id < PLACEHOLDER_ID_END
}

/// Whether an earlier entry carries the same id.
pub open spec fn seen_before(entries: Seq<EntryView>, j: int) -> bool {
    exists|i: int| 0 <= i < j && (#[trigger] entries[i]).a == entries[j].a
}

/// The header an entry's prop bytes parse to.
pub open spec fn header_of(e: EntryView) -> Result<PropHeader, PropError> {
    match spec_prop_bytes(e.blob) {
        Some(p) => spec_parse_header(p),
        None => Err(PropError::BagBlobTooShort { available: e.blob.len() as usize }),
    }
}

/// The entries of the first `k` bag records that the catalog lists: each
/// one's index in the bag and its parsed header. Built-in ids, repeated ids
/// (the first record of an id wins, whatever its header) and records whose
/// header does not parse are left out.
pub open spec fn listed(entries: Seq<EntryView>, k: int) -> Seq<(int, PropHeader)>
    decreases k,
{
    if k <= 0 {
        Seq::empty()
    } else {
        let prev = listed(entries, k - 1);
        let e = entries[k - 1];
        if is_placeholder(e.a) || seen_before(entries, k - 1) {
            prev
        } else {
            match header_of(e) {
                Ok(h) => prev.push((k - 1, h)),
                Err(_) => prev,
            }
        }
    }
}

/// The name an entry's 32-byte prefix yields.
pub open spec fn entry_name(e: EntryView) -> Option<Seq<char>> {
    if e.blob.len() >= BAG_PREFIX_LEN {
        spec_extract_name(e.blob.subrange(0, BAG_PREFIX_LEN as int))
    } else {
        None
    }
}

/// A header dimension, negative ones read as zero.
pub open spec fn dimension(v: i16) -> u16 {
    if v < 0 {
        0
    } else {
        v as u16
    }
}

/// Whether `c` is the catalog entry for bag entry `e` with header `h`.
pub open spec fn describes(
    c: CatalogEntry,
    e: EntryView,
    h: PropHeader,
    favorites: Set<u32>,
    trash: Set<u32>,
    provenance: Provenance,
) -> bool {
    &&& c.id == e.a
    &&& c.crc == e.b
    &&& match entry_name(e) {
        Some(n) => c.name matches Some(s) && s@ == n,
        None => c.name is None,
    }
    &&& c.width == dimension(h.width)
    &&& c.height == dimension(h.height)
    &&& c.flags == h.flags
    &&& c.favorite == favorites.contains(e.a)
    &&& c.trash == trash.contains(e.a)
    &&& c.provenance == provenance
}

/// The abstract catalog: the bag, the entries, and for each entry the index
/// of the bag record behind it.
pub struct CatalogView {
    pub bag: BagView,
    pub entries: Seq<CatalogEntry>,
    pub index: Seq<int>,
}

/// Whether a catalog is the one built from a bag with these favourites,
/// trash and provenance.
pub open spec fn built_from(
    v: CatalogView,
    bag: BagView,
    favorites: Set<u32>,
    trash: Set<u32>,
    provenance: Provenance,
) -> bool {
    let l = listed(bag.entries, bag.entries.len() as int);
    &&& v.bag == bag
    &&& v.entries.len() == l.len()
    &&& v.index.len() == l.len()
    &&& forall|i: int| #![trigger l[i]]
        0 <= i < l.len() ==> v.index[i] == l[i].0 && describes(
            v.entries[i],
            bag.entries[l[i].0],
            l[i].1,
            favorites,
            trash,
            provenance,
        )
}

/// A parsed, read-only view of the props one source supplies.
pub struct PropCatalog {
    bag: PropBag,
    entries: Vec<CatalogEntry>,
    bag_index: Vec<usize>,
}

impl View for PropCatalog {
    type V = CatalogView;

    closed spec fn view(&self) -> CatalogView {
        CatalogView {
            bag: self.bag@,
            entries: self.entries@,
            index: Seq::new(self.bag_index@.len(), |i: int| self.bag_index@[i] as int),
        }
    }
}

/// Whether `x` is in `v`.
fn holds_id(v: &[u32], x: u32) -> (r: bool)
    ensures
        r == v@.contains(x),
{
    let mut i: usize = 0;
    while i < v.len()
        invariant
            i <= v@.len(),
            forall|j: int| 0 <= j < i ==> v@[j] != x,
        decreases v@.len() - i,
    {
        if v[i] == x {
            assert(v@[i as int] == x);
            return true;
        }
        i = i + 1;
    }
    false
}

/// A copy of a provenance.
pub fn copy_provenance(p: &Provenance) -> (r: Provenance)
    ensures
        r == *p,
{
    match p {
        Provenance::Bag { collection, key } => Provenance::Bag {
            collection: copy_string(collection),
            key: *key,
        },
        Provenance::Cache { origin } => Provenance::Cache { origin: copy_string(origin) },
    }
}

proof fn lemma_listed_bounds(entries: Seq<EntryView>, k: int)
    requires
        0 <= k,
    ensures
        forall|i: int| 0 <= i < listed(entries, k).len() ==> 0 <= #[trigger] listed(entries, k)[i].0 < k,
    decreases k,
{
    if k > 0 {
        lemma_listed_bounds(entries, k - 1);
        let prev = listed(entries, k - 1);
        assert forall|i: int| 0 <= i < listed(entries, k).len() implies 0 <= #[trigger] listed(entries, k)[i].0 < k by {
            if i < prev.len() {
                assert(listed(entries, k)[i] == prev[i]);
            }
        }
    }
}

/// The first entry index carrying `id`, from `i` on.
pub open spec fn position_of(entries: Seq<CatalogEntry>, id: u32, i: int) -> Option<int>
    decreases entries.len() - i,
{
    if i < 0 || i >= entries.len() {
        None
    } else if entries[i].id == id {
        Some(i)
    } else {
        position_of(entries, id, i + 1)
    }
}

/// The bag record behind the first entry carrying `id`.
pub open spec fn record_for(v: CatalogView, id: u32) -> Option<EntryView> {
    match position_of(v.entries, id, 0) {
        Some(p) => Some(v.bag.entries[v.index[p]]),
        None => None,
    }
}

/// The PNG thumbnail of a bag record: its prop decoded and encoded as PNG.
pub open spec fn record_thumbnail(e: EntryView) -> Option<Seq<u8>> {
    match spec_prop_bytes(e.blob) {
        Some(pb) => match crate::spec_decode(pb) {
            Some(Ok(pv)) => png_encoded(pv.image.width, pv.image.height, pv.image.rgba),
            _ => None,
        },
        None => None,
    }
}

proof fn lemma_position_in_range(entries: Seq<CatalogEntry>, id: u32, i: int)
    ensures
        position_of(entries, id, i) matches Some(p) ==> 0 <= i <= p < entries.len() && entries[p].id == id,
    decreases entries.len() - i,
{
    if 0 <= i < entries.len() && entries[i].id != id {
        lemma_position_in_range(entries, id, i + 1);
    }
}

impl PropCatalog {
    /// Every entry has a bag record behind it.
    #[verifier::type_invariant]
    spec fn indexed(self) -> bool {
        &&& self.bag_index@.len() == self.entries@.len()
        &&& forall|i: int| 0 <= i < self.bag_index@.len() ==> #[trigger] self.bag_index@[i]
            < self.bag@.entries.len()
    }

    /// Build the catalog of a bag: built-in ids skipped, an id listed once
    /// (its first record wins), records whose header does not parse
    /// skipped, every entry tagged with `provenance`, favourites and trash
    /// matched by id.
    pub fn from_bag(
        bag: PropBag,
        favorites: &HashSet<u32>,
        trash: &HashSet<u32>,
        provenance: Provenance,
    ) -> (r: PropCatalog)
        ensures
            built_from(r@, bag@, favorites@, trash@, provenance),
    {
        broadcast use vstd::std_specs::hash::group_hash_axioms;

        let ghost ev = bag@.entries;
        let mut seen: Vec<u32> = Vec::new();
        let mut entries: Vec<CatalogEntry> = Vec::new();
        let mut bag_index: Vec<usize> = Vec::new();
        let n = bag.entries().len();
        let mut k: usize = 0;
        while k < n
            invariant
                k <= n,
                n == ev.len(),
                ev == bag@.entries,
                forall|id: u32|
                    seen@.contains(id) <==> exists|i: int|
                        0 <= i < k && (#[trigger] ev[i]).a == id && !is_placeholder(id),
                entries@.len() == listed(ev, k as int).len(),
                bag_index@.len() == listed(ev, k as int).len(),
                forall|i: int| #![trigger listed(ev, k as int)[i]]
                    0 <= i < listed(ev, k as int).len() ==> bag_index@[i] as int == listed(
                        ev,
                        k as int,
                    )[i].0 && describes(
                        entries@[i],
                        ev[listed(ev, k as int)[i].0],
                        listed(ev, k as int)[i].1,
                        favorites@,
                        trash@,
                        provenance,
                    ),
            decreases n - k,
        {
            let entry = &bag.entries()[k];
            assert(entry@ == ev[k as int]);
            proof {
                lemma_listed_bounds(ev, k as int);
                lemma_listed_bounds(ev, k as int + 1);
            }
            let id = entry.a();
            let ghost before = listed(ev, k as int);
            let ghost l = listed(ev, k as int + 1);
            let ghost old_entries = entries@;
            let ghost old_index = bag_index@;
            if PLACEHOLDER_ID_START <= id && id < PLACEHOLDER_ID_END {
                assert(listed(ev, k as int + 1) == before);
                assert forall|x: u32| seen@.contains(x) <==> exists|i: int|
                    0 <= i < k + 1 && (#[trigger] ev[i]).a == x && !is_placeholder(x) by {
                    if exists|i: int| 0 <= i < k + 1 && (#[trigger] ev[i]).a == x && !is_placeholder(x) {
                        let i = choose|i: int| 0 <= i < k + 1 && (#[trigger] ev[i]).a == x && !is_placeholder(x);
                        if i == k {
                            assert(is_placeholder(x));
                        }
                    }
                }
            } else if holds_id(seen.as_slice(), id) {
                assert(seen_before(ev, k as int)) by {
                    let i = choose|i: int| 0 <= i < k && (#[trigger] ev[i]).a == id && !is_placeholder(id);
                    assert(ev[i].a == ev[k as int].a);
                }
                assert(listed(ev, k as int + 1) == before);
                assert forall|x: u32| seen@.contains(x) <==> exists|i: int|
                    0 <= i < k + 1 && (#[trigger] ev[i]).a == x && !is_placeholder(x) by {
                    if exists|i: int| 0 <= i < k + 1 && (#[trigger] ev[i]).a == x && !is_placeholder(x) {
                        let i = choose|i: int| 0 <= i < k + 1 && (#[trigger] ev[i]).a == x && !is_placeholder(x);
                        if i == k {
                            assert(seen@.contains(id));
                        }
                    }
                }
            } else {
                assert(!seen_before(ev, k as int)) by {
                    if seen_before(ev, k as int) {
                        let i = choose|i: int| 0 <= i < k && (#[trigger] ev[i]).a == ev[k as int].a;
                        assert(seen@.contains(id));
                    }
                }
                let ghost old_seen = seen@;
                seen.push(id);
                assert forall|x: u32| seen@.contains(x) <==> exists|i: int|
                    0 <= i < k + 1 && (#[trigger] ev[i]).a == x && !is_placeholder(x) by {
                    if seen@.contains(x) && x != id {
                        let j = choose|j: int| 0 <= j < seen@.len() && seen@[j] == x;
                        assert(old_seen[j] == x);
                        assert(old_seen.contains(x));
                    }
                    if x == id {
                        assert(seen@[seen@.len() - 1] == id);
                        assert(ev[k as int].a == x);
                    }
                    if exists|i: int| 0 <= i < k + 1 && (#[trigger] ev[i]).a == x && !is_placeholder(x) {
                        let i = choose|i: int| 0 <= i < k + 1 && (#[trigger] ev[i]).a == x && !is_placeholder(x);
                        if i < k {
                            assert(old_seen.contains(x));
                            let j = choose|j: int| 0 <= j < old_seen.len() && old_seen[j] == x;
                            assert(seen@[j] == x);
                        } else {
                            assert(seen@[seen@.len() - 1] == x);
                        }
                    }
                }
                match entry.header() {
                    Ok(header) => {
                        let name = if entry.blob().len() >= BAG_PREFIX_LEN {
                            extract_name(&entry.blob()[0..BAG_PREFIX_LEN])
                        } else {
                            None
                        };
                        let width: u16 = if header.width < 0 {
                            0
                        } else {
                            header.width as u16
                        };
                        let height: u16 = if header.height < 0 {
                            0
                        } else {
                            header.height as u16
                        };
                        let c = CatalogEntry {
                            id,
                            crc: entry.b(),
                            name,
                            width,
                            height,
                            flags: header.flags,
                            favorite: favorites.contains(&id),
                            trash: trash.contains(&id),
                            provenance: copy_provenance(&provenance),
                        };
                        entries.push(c);
                        bag_index.push(k);
                        proof {
                            assert(header_of(ev[k as int]) == Ok::<PropHeader, PropError>(header));
                            assert(l == before.push((k as int, header)));
                            assert(entries@ == old_entries.push(c));
                            assert(bag_index@ == old_index.push(k));
                            assert forall|i: int| #![trigger l[i]] 0 <= i < l.len() implies bag_index@[i] as int
                                == l[i].0 && describes(
                                entries@[i],
                                ev[l[i].0],
                                l[i].1,
                                favorites@,
                                trash@,
                                provenance,
                            ) by {
                                if i < before.len() {
                                    assert(l[i] == before[i]);
                                    assert(entries@[i] == old_entries[i]);
                                    assert(bag_index@[i] == old_index[i]);
                                    assert(describes(old_entries[i], ev[before[i].0], before[i].1, favorites@, trash@, provenance));
                                } else {
                                    assert(l[i] == (k as int, header));
                                    assert(entries@[i] == c);
                                    assert(c.id == ev[k as int].a);
                                    assert(c.crc == ev[k as int].b);
                                    assert(c.width == dimension(header.width));
                                    assert(c.favorite == favorites@.contains(ev[k as int].a));
                                    assert(c.provenance == provenance);
                                    assert(match entry_name(ev[k as int]) {
                                        Some(n) => c.name matches Some(s) && s@ == n,
                                        None => c.name is None,
                                    });
                                    assert(describes(c, ev[k as int], header, favorites@, trash@, provenance));
                                }
                            }
                        }
                    },
                    Err(_) => {
                        assert(header_of(ev[k as int]) is Err);
                        assert(listed(ev, k as int + 1) == before);
                    },
                }
            }
            proof {
                if l == before {
                    assert forall|i: int| #![trigger l[i]] 0 <= i < l.len() implies bag_index@[i] as int == l[i].0
                        && describes(
                        entries@[i],
                        ev[l[i].0],
                        l[i].1,
                        favorites@,
                        trash@,
                        provenance,
                    ) by {
                        assert(l[i] == before[i]);
                        assert(entries@ == old_entries);
                        assert(bag_index@ == old_index);
                        assert(describes(old_entries[i], ev[before[i].0], before[i].1, favorites@, trash@, provenance));
                    }
                }
            }
            k = k + 1;
        }
        let ghost gi = bag_index@;
        proof {
            lemma_listed_bounds(ev, n as int);
            assert forall|i: int| 0 <= i < gi.len() implies #[trigger] gi[i] < ev.len() by {
                assert(describes(entries@[i], ev[listed(ev, n as int)[i].0], listed(ev, n as int)[i].1, favorites@, trash@, provenance));
            }
        }
        let r = PropCatalog { bag, entries, bag_index };
        assert forall|i: int| 0 <= i < r@.index.len() implies r@.index[i] == listed(ev, n as int)[i].0 by {
            assert(r@.index[i] == gi[i] as int);
            lemma_listed_bounds(ev, n as int);
            assert(describes(r@.entries[i], ev[listed(ev, n as int)[i].0], listed(ev, n as int)[i].1, favorites@, trash@, provenance));
        }
        assert(r@.index =~= Seq::new(
            listed(ev, n as int).len(),
            |i: int| listed(ev, n as int)[i].0,
        ));
        r
    }

    /// The entries, in bag order.
    pub fn entries(&self) -> (r: &[CatalogEntry])
        ensures
            r@ == self@.entries,
    {
        self.entries.as_slice()
    }

    /// Only the bag-sourced entries, in order: a catalog of the cache lists
    /// none.
    pub fn bag_entries(&self) -> (r: Vec<&CatalogEntry>)
        ensures
            targets(r@) == bag_only(self@.entries),
    {
        bag_listing(self.entries.as_slice())
    }

    /// Number of catalogued entries.
    pub fn len(&self) -> (r: usize)
        ensures
            r == self@.entries.len(),
    {
        self.entries.len()
    }

    /// Whether the catalog has no entries.
    pub fn is_empty(&self) -> (r: bool)
        ensures
            r == (self@.entries.len() == 0),
    {
        self.entries.len() == 0
    }

    /// Where the first entry carrying `id` sits.
    fn position(&self, id: u32) -> (r: Option<usize>)
        ensures
            r matches Some(p) ==> position_of(self@.entries, id, 0) == Some(p as int),
            r is None ==> position_of(self@.entries, id, 0) is None,
    {
        let mut i: usize = 0;
        while i < self.entries.len()
            invariant
                i <= self.entries@.len(),
                position_of(self@.entries, id, 0) == position_of(self@.entries, id, i as int),
            decreases self.entries@.len() - i,
        {
            if self.entries[i].id == id {
                return Some(i);
            }
            i = i + 1;
        }
        None
    }

    /// The bag record behind the first entry carrying `id`.
    fn bag_entry(&self, id: u32) -> (r: Option<&BagEntry>)
        ensures
            match record_for(self@, id) {
                Some(e) => r matches Some(b) && b@ == e,
                None => r is None,
            },
    {
        proof {
            use_type_invariant(self);
            lemma_position_in_range(self@.entries, id, 0);
        }
        match self.position(id) {
            Some(p) => {
                let index = self.bag_index[p];
                let entries = self.bag.entries();
                assert(entries@.len() == self.bag@.entries.len());
                let e = &entries[index];
                assert(e@ == self.bag@.entries[index as int]);
                Some(e)
            },
            None => None,
        }
    }

    /// The prop bytes for `id`: the prop header plus payload, with the
    /// 32-byte bundle prefix stripped. `None` for an unknown id or a record
    /// too short to hold prop bytes.
    pub fn blob(&self, id: u32) -> (r: Option<Vec<u8>>)
        ensures
            match record_for(self@, id) {
                Some(e) => match spec_prop_bytes(e.blob) {
                    Some(p) => r matches Some(v) && v@ == p,
                    None => r is None,
                },
                None => r is None,
            },
    {
        match self.bag_entry(id) {
            Some(e) => match e.prop_bytes() {
                Some(p) => Some(crate::codec::thirtytwo::slice_to_vec(p)),
                None => None,
            },
            None => None,
        }
    }

    /// A PNG thumbnail for `id`; `None` when the id is unknown, its prop
    /// cannot be decoded, or the PNG encoder refuses it.
    pub fn thumbnail_png(&self, id: u32) -> (r: Option<Vec<u8>>)
        ensures
            match record_for(self@, id) {
                Some(e) => match record_thumbnail(e) {
                    Some(b) => r matches Some(v) && v@ == b,
                    None => r is None,
                },
                None => r is None,
            },
    {
        match self.bag_entry(id) {
            Some(e) => match e.decode() {
                Ok(prop) => match prop.image.to_png_bytes() {
                    Ok(v) => Some(v),
                    Err(_) => None,
                },
                Err(_) => None,
            },
            None => None,
        }
    }

    /// The whole catalog as the picker's JSON payload.
    pub fn catalog_json(&self) -> (r: String)
        ensures
            r@ == spec_entries_json(self@.entries),
    {
        let mut refs: Vec<&CatalogEntry> = Vec::new();
        let mut i: usize = 0;
        while i < self.entries.len()
            invariant
                i <= self.entries@.len(),
                refs@.len() == i,
                targets(refs@) == self.entries@.subrange(0, i as int),
            decreases self.entries@.len() - i,
        {
            let ghost before = refs@;
            refs.push(&self.entries[i]);
            assert(*refs@[i as int] == self.entries@[i as int]);
            assert forall|j: int| 0 <= j < i implies refs@[j] == before[j] by {}
            i = i + 1;
            assert(targets(refs@) =~= self.entries@.subrange(0, i as int));
        }
        assert(self.entries@.subrange(0, i as int) =~= self.entries@);
        entries_json(refs.as_slice())
    }
}

} // verus!
