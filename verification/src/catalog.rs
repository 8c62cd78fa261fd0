//! A browsable catalog entry and the picker's JSON payload.
//!
//! Every entry carries the [`Provenance`] of the source that produced it; a
//! bag listing goes through [`crate::provenance::bag_listing`] and so can
//! never show a cache entry.

use vstd::prelude::*;

use crate::json::{escape_json_into, json_bool, json_escape, push_bool, push_number};
use crate::provenance::Provenance;
use crate::text::{push_str, spec_decimal};

verus! {

/// One browsable prop: its identity, dimensions, flags and bag state.
#[derive(Debug, Clone, PartialEq, Eq)]
pub struct CatalogEntry {
    /// The asset id.
    pub id: u32,
    /// The payload CRC.
    pub crc: u32,
    /// A best-effort display name; `None` when no usable text was found.
    pub name: Option<String>,
    /// Prop width in pixels.
    pub width: u16,
    /// Prop height in pixels.
    pub height: u16,
    /// The raw prop flag word.
    pub flags: u16,
    /// Whether the prop is a favourite.
    pub favorite: bool,
    /// Whether the prop is in the trash.
    pub trash: bool,
    /// Where the entry came from: a user-owned bag collection or the cache.
    pub provenance: Provenance,
}

/// The optional `"name"` member of an entry.
pub open spec fn name_member(name: Option<String>) -> Seq<char> {
    match name {
        Some(n) => ",\"name\":\""@ + json_escape(n@) + "\""@,
        None => Seq::empty(),
    }
}

/// The collection a bag entry names; empty for a cache entry.
pub open spec fn bag_collection(p: Provenance) -> Seq<char> {
    match p {
        Provenance::Bag { collection, .. } => collection@,
        Provenance::Cache { .. } => Seq::empty(),
    }
}

/// The `"collection"` member a bag entry carries; a cache entry carries none.
pub open spec fn collection_member(p: Provenance) -> Seq<char> {
    match p {
        Provenance::Bag { collection, .. } => ",\"collection\":\""@ + json_escape(collection@)
            + "\""@,
        Provenance::Cache { .. } => Seq::empty(),
    }
}

/// The identity and name members of an entry.
pub open spec fn entry_head(e: CatalogEntry) -> Seq<char> {
    "{\"id\":"@ + spec_decimal(e.id as nat) + ",\"crc\":"@ + spec_decimal(e.crc as nat)
        + name_member(e.name)
}

/// The dimension, flag and state members of an entry.
pub open spec fn entry_fields(e: CatalogEntry) -> Seq<char> {
    ",\"w\":"@ + spec_decimal(e.width as nat) + ",\"h\":"@ + spec_decimal(e.height as nat)
        + ",\"flags\":"@ + spec_decimal(e.flags as nat) + ",\"fav\":"@ + json_bool(e.favorite)
        + ",\"trash\":"@ + json_bool(e.trash)
}

/// One entry of the picker's payload.
pub open spec fn entry_json(e: CatalogEntry) -> Seq<char> {
    entry_head(e) + entry_fields(e) + collection_member(e.provenance) + "}"@
}

/// The entries joined with commas.
pub open spec fn entries_body(es: Seq<CatalogEntry>) -> Seq<char>
    decreases es.len(),
{
    if es.len() == 0 {
        Seq::empty()
    } else if es.len() == 1 {
        entry_json(es[0])
    } else {
        entries_body(es.drop_last()) + ","@ + entry_json(es.last())
    }
}

/// The picker's payload: one object with a `props` array.
pub open spec fn spec_entries_json(es: Seq<CatalogEntry>) -> Seq<char> {
    "{\"props\":["@ + entries_body(es) + "]}"@
}

/// Append the identity and name members.
pub(crate) fn push_entry_head(out: &mut String, e: &CatalogEntry)
    ensures
        final(out)@ == old(out)@ + entry_head(*e),
{
    push_str(out, "{\"id\":");
    push_number(out, e.id as u64);
    push_str(out, ",\"crc\":");
    push_number(out, e.crc as u64);
    let ghost before_name = out@;
    match &e.name {
        Some(name) => {
            push_str(out, ",\"name\":\"");
            escape_json_into(name.as_str(), out);
            push_str(out, "\"");
        },
        None => {},
    }
    assert(out@ =~= before_name + name_member(e.name));
    assert(out@ =~= old(out)@ + entry_head(*e));
}

/// Append the dimension, flag and state members.
pub(crate) fn push_entry_fields(out: &mut String, e: &CatalogEntry)
    ensures
        final(out)@ == old(out)@ + entry_fields(*e),
{
    push_str(out, ",\"w\":");
    push_number(out, e.width as u64);
    push_str(out, ",\"h\":");
    push_number(out, e.height as u64);
    push_str(out, ",\"flags\":");
    push_number(out, e.flags as u64);
    push_str(out, ",\"fav\":");
    push_bool(out, e.favorite);
    push_str(out, ",\"trash\":");
    push_bool(out, e.trash);
    assert(out@ =~= old(out)@ + entry_fields(*e));
}

/// Append one entry's JSON object.
fn push_entry_json(out: &mut String, e: &CatalogEntry)
    ensures
        final(out)@ == old(out)@ + entry_json(*e),
{
    push_entry_head(out, e);
    push_entry_fields(out, e);
    let ghost before_coll = out@;
    match &e.provenance {
        Provenance::Bag { collection, .. } => {
            push_str(out, ",\"collection\":\"");
            escape_json_into(collection.as_str(), out);
            push_str(out, "\"");
        },
        Provenance::Cache { .. } => {},
    }
    assert(out@ =~= before_coll + collection_member(e.provenance));
    push_str(out, "}");
    assert(out@ =~= old(out)@ + entry_json(*e));
}

/// Serialise entries as the picker's JSON payload.
///
/// Each entry carries `id`, `crc`, optional `name`, `w`, `h`, `flags`, `fav`
/// and `trash`; a bag-sourced entry additionally carries `collection`. `name`
/// is omitted entirely when unknown, and a cache entry carries no
/// `collection`: a cached prop must never look bag-owned.
pub fn entries_json(entries: &[&CatalogEntry]) -> (r: String)
    ensures
        r@ == spec_entries_json(crate::provenance::targets(entries@)),
{
    let ghost es = crate::provenance::targets(entries@);
    let mut out = String::new();
    push_str(&mut out, "{\"props\":[");
    let ghost head = out@;
    let mut i: usize = 0;
    while i < entries.len()
        invariant
            i <= entries@.len(),
            es == crate::provenance::targets(entries@),
            out@ == head + entries_body(es.subrange(0, i as int)),
        decreases entries@.len() - i,
    {
        let ghost before = out@;
        if i > 0 {
            push_str(&mut out, ",");
        }
        push_entry_json(&mut out, entries[i]);
        proof {
            let prefix = es.subrange(0, i as int + 1);
            assert(prefix.drop_last() =~= es.subrange(0, i as int));
            assert(prefix.last() == *entries@[i as int]);
            if i == 0 {
                assert(es.subrange(0, 0) =~= Seq::<CatalogEntry>::empty());
            }
        }
        i = i + 1;
        assert(out@ =~= head + entries_body(es.subrange(0, i as int)));
    }
    assert(es.subrange(0, i as int) =~= es);
    push_str(&mut out, "]}");
    out
}

} // verus!
