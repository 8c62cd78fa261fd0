//! Non-destructive repair of stale `Prop` CRCs in a `.prp` roster.
//!
//! The server validates only `"Prop"` records at startup: it hashes the blob
//! after its 12-byte header and compares the result with the record's `crc`
//! field, dropping a record whose CRC does not match. [`audit`] finds those
//! records; [`repair`] and [`repair_bytes`] emit a repaired copy: the same
//! container with every mismatching `Prop` record's `crc` recomputed from its
//! payload and nothing else changed. Non-`Prop` records are not payloads and
//! are left alone.

use vstd::prelude::*;

use crate::crc::{asset_crc, spec_asset_crc};
use crate::error::PropError;
use crate::header::HEADER_LEN;
use crate::prp::mutate::{kind_of, type_holding, with_crcs, with_crcs_view};
use crate::prp::record::opt_text;
use crate::prp::write::{layout_fits, spec_serialize};
use crate::prp::{AssetType, PropKey, RecordView, Roster, RosterView};

verus! {

/// A `Prop` record whose stored CRC does not match its payload.
#[derive(Debug, Clone, PartialEq, Eq)]
pub struct CrcMismatch {
    /// The record's position in file order.
    pub index: usize,
    /// The identity as stored; its `crc` half is the stale one.
    pub key: PropKey,
    /// The record's resolved name, when it has one.
    pub name: Option<String>,
    /// Blob length in bytes, the 12-byte header included.
    pub data_size: u32,
    /// The prop's own flag word, from the blob header.
    pub prop_flags: u16,
    /// The CRC the record declares.
    pub stored_crc: u32,
    /// The CRC recomputed from the blob's payload.
    pub computed_crc: u32,
}

/// The abstract content of a mismatch, its name taken by view.
pub struct MismatchView {
    /// Position in file order.
    pub index: usize,
    /// The identity as stored.
    pub key: PropKey,
    /// The resolved name.
    pub name: Option<Seq<char>>,
    /// Blob length.
    pub data_size: u32,
    /// The prop's own flag word.
    pub prop_flags: u16,
    /// The declared CRC.
    pub stored_crc: u32,
    /// The recomputed CRC.
    pub computed_crc: u32,
}

impl View for CrcMismatch {
    type V = MismatchView;

    open spec fn view(&self) -> MismatchView {
        MismatchView {
            index: self.index,
            key: self.key,
            name: opt_text(self.name),
            data_size: self.data_size,
            prop_flags: self.prop_flags,
            stored_crc: self.stored_crc,
            computed_crc: self.computed_crc,
        }
    }
}

/// What an audit found.
#[derive(Debug, Clone, PartialEq, Eq)]
pub struct CrcAudit {
    /// `Prop` records whose payload was hashed.
    pub checked: usize,
    /// Records left unvalidated: every non-`Prop` record, plus a `Prop` blob
    /// too short to carry a payload.
    pub unvalidated: usize,
    /// The mismatching records, in file order.
    pub mismatches: Vec<CrcMismatch>,
}

impl CrcAudit {
    /// Whether every checked `Prop` payload matched its stored CRC.
    pub fn is_clean(&self) -> (r: bool)
        ensures
            r == (self.mismatches@.len() == 0),
    {
        self.mismatches.len() == 0
    }

    /// How many records a repair would rewrite.
    pub fn repaired_count(&self) -> (r: usize)
        ensures
            r == self.mismatches@.len(),
    {
        self.mismatches.len()
    }
}

/// A repaired roster's bytes, plus the audit that produced them.
#[derive(Debug, Clone, PartialEq, Eq)]
pub struct RepairedBytes {
    /// The complete repaired `.prp`.
    pub bytes: Vec<u8>,
    /// The audit of the roster before repair.
    pub audit: CrcAudit,
}

/// Whether record `i` is a `Prop` payload the server validates: inside the
/// `Prop` type's declared range and long enough to have a payload.
pub open spec fn is_checked(v: RosterView, i: int) -> bool {
    &&& match type_holding(v.types, i, 0) {
        Some(t) => kind_of(v.types[t]) == AssetType::Prop,
        None => false,
    }
    &&& v.records[i].blob.len() >= HEADER_LEN
}

/// The payload CRC of a record's blob.
pub open spec fn payload_crc_of(r: RecordView) -> u32 {
    spec_asset_crc(r.blob.subrange(HEADER_LEN as int, r.blob.len() as int))
}

/// The prop flag word of a record.
pub open spec fn flags_of(r: RecordView) -> u16 {
    match r.header {
        Some(h) => h.flags,
        None => 0,
    }
}

/// The mismatch report for record `i`.
pub open spec fn mismatch_of(v: RosterView, i: int) -> MismatchView {
    let r = v.records[i];
    MismatchView {
        index: i as usize,
        key: PropKey { id: r.rec.id, crc: r.rec.crc },
        name: r.name,
        data_size: r.rec.data_size,
        prop_flags: flags_of(r),
        stored_crc: r.rec.crc,
        computed_crc: payload_crc_of(r),
    }
}

/// The audit of the first `k` records: checked, unvalidated, mismatches.
pub open spec fn audit_upto(v: RosterView, k: int) -> (nat, nat, Seq<MismatchView>)
    decreases k,
{
    if k <= 0 {
        (0, 0, Seq::empty())
    } else {
        let (checked, unvalidated, found) = audit_upto(v, k - 1);
        let i = k - 1;
        if !is_checked(v, i) {
            (checked, unvalidated + 1, found)
        } else if payload_crc_of(v.records[i]) != v.records[i].rec.crc {
            (checked + 1, unvalidated, found.push(mismatch_of(v, i)))
        } else {
            (checked + 1, unvalidated, found)
        }
    }
}

/// The views of a list of mismatches.
pub open spec fn mismatches_view(ms: Seq<CrcMismatch>) -> Seq<MismatchView> {
    Seq::new(ms.len(), |i: int| ms[i]@)
}

/// Whether an audit reports exactly what the roster holds.
pub open spec fn audit_of(v: RosterView, a: CrcAudit) -> bool {
    let (checked, unvalidated, found) = audit_upto(v, v.records.len() as int);
    &&& a.checked == checked
    &&& a.unvalidated == unvalidated
    &&& mismatches_view(a.mismatches@) == found
}

/// The stored CRC each record carries after repair.
pub open spec fn repaired_crcs(v: RosterView) -> Seq<u32> {
    Seq::new(
        v.records.len(),
        |i: int|
            if is_checked(v, i) {
                payload_crc_of(v.records[i])
            } else {
                v.records[i].rec.crc
            },
    )
}

/// The roster a repair writes.
pub open spec fn spec_repaired(v: RosterView) -> RosterView {
    with_crcs_view(v, repaired_crcs(v))
}

/// The kind of the type whose declared range covers `index`.
fn record_type(roster: &Roster, index: usize) -> (r: Option<AssetType>)
    ensures
        r == (match type_holding(roster@.types, index as int, 0) {
            Some(t) => Some(kind_of(roster@.types[t])),
            None => None,
        }),
{
    let types = roster.types();
    let mut i: usize = 0;
    while i < types.len()
        invariant
            i <= types@.len(),
            types@ == roster@.types,
            type_holding(types@, index as int, 0) == type_holding(types@, index as int, i as int),
        decreases types@.len() - i,
    {
        let t = types[i];
        let first: usize = if t.first_asset < 0 {
            0
        } else {
            t.first_asset as usize
        };
        let count: usize = if t.nbr_assets < 0 {
            0
        } else {
            t.nbr_assets as usize
        };
        if index >= first && index < first + count {
            return Some(t.kind());
        }
        i = i + 1;
    }
    None
}

/// Audit a parsed roster: hash every `Prop` payload and compare it to the CRC
/// the record declares. Only records inside the `"Prop"` type's declared range
/// are checked; everything else is counted as unvalidated.
pub fn audit(roster: &Roster) -> (r: CrcAudit)
    ensures
        audit_of(roster@, r),
{
    let ghost v = roster@;
    let records = roster.records();
    let mut checked: usize = 0;
    let mut unvalidated: usize = 0;
    let mut mismatches: Vec<CrcMismatch> = Vec::new();
    let mut i: usize = 0;
    while i < records.len()
        invariant
            i <= records@.len(),
            v == roster@,
            crate::prp::read::records_view(records@) == v.records,
            checked + unvalidated == i,
            audit_upto(v, i as int) == (
                checked as nat,
                unvalidated as nat,
                mismatches_view(mismatches@),
            ),
        decreases records@.len() - i,
    {
        let record = &records[i];
        assert(record@ == v.records[i as int]);
        let is_prop = match record_type(roster, i) {
            Some(AssetType::Prop) => true,
            _ => false,
        };
        let bl = record.blob.len();
        if !is_prop || bl < HEADER_LEN {
            unvalidated = unvalidated + 1;
        } else {
            checked = checked + 1;
            let computed = asset_crc(&record.blob.as_slice()[HEADER_LEN..bl]);
            if computed != record.rec.crc {
                let ghost before = mismatches_view(mismatches@);
                let name = match &record.name {
                    Some(s) => Some(s.clone()),
                    None => None,
                };
                let m = CrcMismatch {
                    index: i,
                    key: PropKey::new(record.rec.id, record.rec.crc),
                    name,
                    data_size: record.rec.data_size,
                    prop_flags: record.prop_flags(),
                    stored_crc: record.rec.crc,
                    computed_crc: computed,
                };
                assert(m@ == mismatch_of(v, i as int));
                mismatches.push(m);
                assert(mismatches_view(mismatches@) =~= before.push(mismatch_of(v, i as int)));
            }
        }
        i = i + 1;
    }
    CrcAudit { checked, unvalidated, mismatches }
}

/// The error a refused repair reports.
fn refused(detail: &str) -> (r: PropError)
    ensures
        r matches PropError::BagIo { .. },
{
    let mut text = String::from_str(".prp repair refused: ");
    text.append(detail);
    PropError::BagIo { detail: text }
}

/// Parse `buf` and audit it.
pub fn audit_bytes(buf: &[u8]) -> (r: Result<CrcAudit, PropError>)
    ensures
        match crate::prp::read::spec_parse_roster(buf@) {
            Some(v) => r matches Ok(a) && audit_of(v, a),
            None => r is Err,
        },
{
    match Roster::parse(buf) {
        Ok(roster) => Ok(audit(&roster)),
        Err(e) => Err(e),
    }
}

/// What [`repair`] makes of a roster.
pub open spec fn repair_outcome(v: RosterView, r: Result<RepairedBytes, PropError>) -> bool {
    if v.dropped != 0 {
        r matches Err(PropError::BagIo { .. })
    } else if !layout_fits(spec_repaired(v)) {
        r matches Err(PropError::BagIo { .. })
    } else {
        r matches Ok(out) && out.bytes@ == spec_serialize(spec_repaired(v)) && audit_of(
            v,
            out.audit,
        )
    }
}

/// Emit a repaired copy of a parsed roster: its literal serialisation with
/// each mismatching `Prop` record's `crc` replaced by the payload CRC. A clean
/// roster comes out byte-identical to [`Roster::write`]'s output.
///
/// Refused when the parse dropped records: a repaired copy must not silently
/// lose them.
pub fn repair(roster: &Roster) -> (r: Result<RepairedBytes, PropError>)
    ensures
        repair_outcome(roster@, r),
{
    if roster.dropped_records() != 0 {
        return Err(
            refused(
                "the parse dropped records; refusing to emit a copy that would silently lose them",
            ),
        );
    }
    let ghost v = roster@;
    let audit = audit(roster);
    let records = roster.records();
    let mut crcs: Vec<u32> = Vec::new();
    let mut i: usize = 0;
    while i < records.len()
        invariant
            i <= records@.len(),
            v == roster@,
            crate::prp::read::records_view(records@) == v.records,
            crcs@.len() == i,
            forall|j: int| 0 <= j < i ==> crcs@[j] == repaired_crcs(v)[j],
        decreases records@.len() - i,
    {
        let record = &records[i];
        assert(record@ == v.records[i as int]);
        let is_prop = match record_type(roster, i) {
            Some(AssetType::Prop) => true,
            _ => false,
        };
        let bl = record.blob.len();
        if is_prop && bl >= HEADER_LEN {
            crcs.push(asset_crc(&record.blob.as_slice()[HEADER_LEN..bl]));
        } else {
            crcs.push(record.rec.crc);
        }
        i = i + 1;
    }
    assert(crcs@ =~= repaired_crcs(v));
    let fixed = with_crcs(roster, &crcs);
    match fixed.write() {
        Ok(bytes) => Ok(RepairedBytes { bytes, audit }),
        Err(e) => Err(e),
    }
}

/// Parse `buf` and emit its repaired copy.
///
/// Refused when the container is not self-consistent (`filesize !=
/// assetMapOffset + assetMapSize`) or when the parse dropped records.
pub fn repair_bytes(buf: &[u8]) -> (r: Result<RepairedBytes, PropError>)
    ensures
        match crate::prp::read::spec_parse_roster(buf@) {
            None => if buf@.len() < crate::prp::model::FILE_HEADER_LEN {
                r == Err::<RepairedBytes, PropError>(
                    PropError::HeaderTooShort { available: buf@.len() as usize },
                )
            } else {
                r matches Err(PropError::BagIo { .. })
            },
            Some(v) => if v.file.asset_map_offset as int + v.file.asset_map_size as int
                != buf@.len() {
                r matches Err(PropError::BagIo { .. })
            } else {
                repair_outcome(v, r)
            },
        },
{
    let roster = match Roster::parse(buf) {
        Ok(r) => r,
        Err(e) => {
            return Err(e);
        },
    };
    if !roster.file_header().invariant_holds(buf.len()) {
        return Err(
            refused(
                "the file does not satisfy filesize == assetMapOffset + assetMapSize; a repaired copy would not preserve its trailing bytes",
            ),
        );
    }
    repair(&roster)
}

proof fn lemma_clean_prefix(v: RosterView, k: int)
    requires
        0 <= k <= v.records.len(),
        audit_upto(v, k).2.len() == 0,
    ensures
        forall|i: int| 0 <= i < k && is_checked(v, i) ==> payload_crc_of(#[trigger] v.records[i])
            == v.records[i].rec.crc,
    decreases k,
{
    if k > 0 {
        let prev = audit_upto(v, k - 1);
        if is_checked(v, k - 1) && payload_crc_of(v.records[k - 1]) != v.records[k - 1].rec.crc {
            assert(audit_upto(v, k).2 == prev.2.push(mismatch_of(v, k - 1)));
        }
        lemma_clean_prefix(v, k - 1);
    }
}

/// A roster whose audit finds no mismatch is its own repair; the repaired
/// copy is then exactly what [`Roster::write`] writes.
pub proof fn lemma_clean_repair_is_write(
    v: RosterView,
    a: CrcAudit,
    r: Result<RepairedBytes, PropError>,
)
    requires
        audit_of(v, a),
        a.mismatches@.len() == 0,
        repair_outcome(v, r),
    ensures
        spec_repaired(v) == v,
        v.dropped == 0 && layout_fits(v) ==> (r matches Ok(out) && out.bytes@ == spec_serialize(v)),
{
    assert(mismatches_view(a.mismatches@).len() == 0);
    lemma_clean_prefix(v, v.records.len() as int);
    let w = spec_repaired(v);
    assert forall|i: int| 0 <= i < v.records.len() implies #[trigger] w.records[i] == v.records[i] by {
        assert(repaired_crcs(v)[i] == v.records[i].rec.crc);
    }
    assert(w.records =~= v.records);
}

proof fn lemma_repaired_prefix(v: RosterView, k: int)
    requires
        0 <= k <= v.records.len(),
    ensures
        audit_upto(spec_repaired(v), k).2.len() == 0,
    decreases k,
{
    if k > 0 {
        lemma_repaired_prefix(v, k - 1);
        let w = spec_repaired(v);
        assert(w.types == v.types);
        assert(w.records[k - 1].blob == v.records[k - 1].blob);
        assert(is_checked(w, k - 1) == is_checked(v, k - 1));
    }
}

/// Auditing a repaired roster finds no mismatch: the repair rewrites every
/// checked record's stored CRC to its payload CRC and touches nothing else
/// the audit reads.
pub proof fn lemma_repair_leaves_clean(v: RosterView)
    ensures
        audit_upto(spec_repaired(v), spec_repaired(v).records.len() as int).2.len() == 0,
{
    lemma_repaired_prefix(v, v.records.len() as int);
}

/// For a roster in the writer's layout, the repaired bytes parse back to the
/// repaired roster, and auditing them finds no mismatch.
pub proof fn lemma_repaired_bytes_audit_clean(v: RosterView)
    requires
        crate::prp::round_trip::literal(v),
    ensures
        crate::prp::read::spec_parse_roster(spec_serialize(spec_repaired(v))) == Some(
            spec_repaired(v),
        ),
        audit_upto(spec_repaired(v), spec_repaired(v).records.len() as int).2.len() == 0,
{
    let w = spec_repaired(v);
    reveal(crate::prp::round_trip::literal);
    assert forall|i: int| 0 <= i < w.records.len() implies crate::prp::round_trip::record_literal(
        w,
        #[trigger] w.records[i],
    ) by {
        assert(crate::prp::round_trip::record_literal(v, v.records[i]));
        assert(w.records[i].rec.name_offset == v.records[i].rec.name_offset);
    }
    assert(crate::prp::round_trip::literal(w));
    crate::prp::round_trip::lemma_parse_serialize(w);
    lemma_repair_leaves_clean(v);
}

proof fn lemma_found_are_prop(v: RosterView, k: int)
    requires
        0 <= k <= v.records.len(),
        v.records.len() <= usize::MAX,
    ensures
        forall|m: int|
            0 <= m < audit_upto(v, k).2.len() ==> {
                let i = (#[trigger] audit_upto(v, k).2[m]).index as int;
                &&& 0 <= i < k
                &&& audit_upto(v, k).2[m] == mismatch_of(v, i)
                &&& type_holding(v.types, i, 0) matches Some(t) && kind_of(v.types[t])
                    == AssetType::Prop
                &&& v.records[i].blob.len() >= HEADER_LEN
                &&& v.records[i].rec.crc != spec_asset_crc(
                    v.records[i].blob.subrange(HEADER_LEN as int, v.records[i].blob.len() as int),
                )
            },
    decreases k,
{
    if k > 0 {
        lemma_found_are_prop(v, k - 1);
        let prev = audit_upto(v, k - 1).2;
        let cur = audit_upto(v, k).2;
        assert forall|m: int| 0 <= m < cur.len() implies {
            let i = (#[trigger] cur[m]).index as int;
            &&& 0 <= i < k
            &&& cur[m] == mismatch_of(v, i)
            &&& type_holding(v.types, i, 0) matches Some(t) && kind_of(v.types[t]) == AssetType::Prop
            &&& v.records[i].blob.len() >= HEADER_LEN
            &&& v.records[i].rec.crc != spec_asset_crc(
                v.records[i].blob.subrange(HEADER_LEN as int, v.records[i].blob.len() as int),
            )
        } by {
            if m < prev.len() {
                assert(cur[m] == prev[m]);
            } else {
                assert(cur[m] == mismatch_of(v, k - 1));
                assert(mismatch_of(v, k - 1).index as int == k - 1);
            }
        }
    }
}

/// The audit reports only records in the declared range of a `Prop` type
/// whose blob carries a payload and whose stored CRC differs from the
/// payload's hash; a record outside every `Prop` range is never reported,
/// and every record is counted once, as checked or as unvalidated.
pub proof fn lemma_audit_reports_prop_mismatches(v: RosterView, a: CrcAudit)
    requires
        audit_of(v, a),
        v.records.len() <= usize::MAX,
    ensures
        a.checked + a.unvalidated == v.records.len(),
        forall|m: int|
            0 <= m < a.mismatches@.len() ==> {
                let i = (#[trigger] a.mismatches@[m])@.index as int;
                &&& 0 <= i < v.records.len()
                &&& type_holding(v.types, i, 0) matches Some(t) && kind_of(v.types[t])
                    == AssetType::Prop
                &&& v.records[i].blob.len() >= HEADER_LEN
                &&& a.mismatches@[m]@.stored_crc == v.records[i].rec.crc
                &&& a.mismatches@[m]@.computed_crc == spec_asset_crc(
                    v.records[i].blob.subrange(HEADER_LEN as int, v.records[i].blob.len() as int),
                )
                &&& a.mismatches@[m]@.stored_crc != a.mismatches@[m]@.computed_crc
            },
{
    lemma_found_are_prop(v, v.records.len() as int);
    lemma_audit_count(v, v.records.len() as int);
    let found = audit_upto(v, v.records.len() as int).2;
    assert forall|m: int| 0 <= m < a.mismatches@.len() implies {
        let i = (#[trigger] a.mismatches@[m])@.index as int;
        &&& 0 <= i < v.records.len()
        &&& type_holding(v.types, i, 0) matches Some(t) && kind_of(v.types[t]) == AssetType::Prop
        &&& v.records[i].blob.len() >= HEADER_LEN
        &&& a.mismatches@[m]@.stored_crc == v.records[i].rec.crc
        &&& a.mismatches@[m]@.computed_crc == spec_asset_crc(
            v.records[i].blob.subrange(HEADER_LEN as int, v.records[i].blob.len() as int),
        )
        &&& a.mismatches@[m]@.stored_crc != a.mismatches@[m]@.computed_crc
    } by {
        assert(mismatches_view(a.mismatches@)[m] == found[m]);
    }
}

proof fn lemma_audit_count(v: RosterView, k: int)
    requires
        0 <= k,
    ensures
        audit_upto(v, k).0 + audit_upto(v, k).1 == k,
    decreases k,
{
    if k > 0 {
        lemma_audit_count(v, k - 1);
    }
}

/// The repair rewrites only the stored CRC of records in the declared range
/// of a `Prop` type that carry a payload, to the payload's hash; every other
/// record, and every other field, is kept as it was.
pub proof fn lemma_repair_touches_only_prop_crcs(v: RosterView, i: int)
    requires
        0 <= i < v.records.len(),
    ensures
        spec_repaired(v).records.len() == v.records.len(),
        spec_repaired(v).types == v.types,
        spec_repaired(v).data == v.data,
        spec_repaired(v).names == v.names,
        spec_repaired(v).records[i] == (RecordView {
            rec: crate::prp::AssetRec { crc: spec_repaired(v).records[i].rec.crc, ..v.records[i].rec },
            ..v.records[i]
        }),
        (type_holding(v.types, i, 0) matches Some(t) && kind_of(v.types[t]) == AssetType::Prop
            && v.records[i].blob.len() >= HEADER_LEN) ==> spec_repaired(v).records[i].rec.crc
            == spec_asset_crc(
            v.records[i].blob.subrange(HEADER_LEN as int, v.records[i].blob.len() as int),
        ),
        !(type_holding(v.types, i, 0) matches Some(t) && kind_of(v.types[t]) == AssetType::Prop)
            ==> spec_repaired(v).records[i] == v.records[i],
{
}

/// How many of the first `k` records lie outside every `Prop` type's
/// declared range or are too short to carry a payload.
pub open spec fn outside_prop_count(v: RosterView, k: int) -> nat
    decreases k,
{
    if k <= 0 {
        0
    } else {
        outside_prop_count(v, k - 1) + if (type_holding(v.types, k - 1, 0) matches Some(t)
            && kind_of(v.types[t]) == AssetType::Prop) && v.records[k - 1].blob.len()
            >= HEADER_LEN {
            0nat
        } else {
            1nat
        }
    }
}

proof fn lemma_unvalidated_upto(v: RosterView, k: int)
    requires
        0 <= k,
    ensures
        audit_upto(v, k).1 == outside_prop_count(v, k),
    decreases k,
{
    if k > 0 {
        lemma_unvalidated_upto(v, k - 1);
    }
}

/// The audit leaves unvalidated exactly the records outside every `Prop`
/// type's declared range and the `Prop` records too short to carry a
/// payload; it checks all the others.
pub proof fn lemma_audit_unvalidated(v: RosterView, a: CrcAudit)
    requires
        audit_of(v, a),
    ensures
        a.unvalidated == outside_prop_count(v, v.records.len() as int),
        a.checked + outside_prop_count(v, v.records.len() as int) == v.records.len(),
{
    lemma_unvalidated_upto(v, v.records.len() as int);
    lemma_audit_count(v, v.records.len() as int);
}

} // verus!
