//! Gather: copy a prop seen in a room into My Bag, byte-preserving.
//!
//! Every gather writes into My Bag through the bag store, never a shelf and
//! never PalaceChat's data. The blob is stored exactly as it arrived. Before
//! anything is written the blob must decode, its payload CRC must match the
//! `crc` the caller passed, and it must fit the size a `.prp` record can hold;
//! a prop that fails is [`GatherOutcome::Rejected`] and nothing is written.
//! Gathering an `(id, crc)` My Bag already holds is a no-op.

use vstd::prelude::*;

use crate::bag_folder::{join_text, my_bag_path, opt_str, BAG_FILE_NAME};
use crate::bag_store::{
    built_record, loaded, opt_bytes, opt_text_of, spec_clean_name, writable, written, BagStore,
    WriteOutcome,
};
use crate::crc::{payload_crc, spec_payload_crc};
use crate::error::{spec_message, PropError};
use crate::json::{hex8, push_hex8};
use crate::prp::mutate::{key_index, spec_add_typed};
use crate::prp::{AssetType, PropKey};
use crate::text::{push_decimal, push_str, spec_decimal};
use crate::{decode, spec_decode};

verus! {

/// Largest blob a gather will store: a record's `data_size` is 32 bits.
pub const MAX_GATHER_BLOB_BYTES: usize = 4294967295;

/// What a gather attempt did.
#[derive(Debug, Clone, PartialEq, Eq)]
pub enum GatherOutcome {
    /// The prop was written into My Bag.
    Added,
    /// My Bag already held this exact `(id, crc)`; nothing was written.
    AlreadyPresent,
    /// The prop was refused before anything was written, with the reason.
    Rejected(String),
}

/// The reason a blob of `len` bytes is too large.
pub open spec fn size_reason(len: nat) -> Seq<char> {
    "the prop blob is "@ + spec_decimal(len) + " bytes; a .prp record can hold at most "@
        + spec_decimal(MAX_GATHER_BLOB_BYTES as nat) + " bytes"@
}

/// Why `len` bytes cannot be gathered, or `None` when the size is fine.
pub fn size_rejection(len: usize) -> (r: Option<String>)
    ensures
        len <= MAX_GATHER_BLOB_BYTES ==> r is None,
        len > MAX_GATHER_BLOB_BYTES ==> (r matches Some(s) && s@ == size_reason(len as nat)),
{
    if len > MAX_GATHER_BLOB_BYTES {
        let mut s = String::from_str("the prop blob is ");
        push_decimal(&mut s, len as u64);
        push_str(&mut s, " bytes; a .prp record can hold at most ");
        push_decimal(&mut s, MAX_GATHER_BLOB_BYTES as u64);
        push_str(&mut s, " bytes");
        Some(s)
    } else {
        None
    }
}

/// The reason a blob whose payload CRC is `computed` does not match `crc`.
pub open spec fn crc_reason(crc: u32, computed: u32) -> Seq<char> {
    "crc "@ + hex8(crc) + " does not match the blob's payload crc "@ + hex8(computed)
        + "; the record's identity must match its bytes"@
}

/// The collection a gather writes to: `<bag root>/My Bag.prp`.
pub fn gather_target(store: &BagStore) -> (r: Result<String, PropError>)
    ensures
        match store.ctx().bag_root {
            Some(root) => r matches Ok(p) && p@ == join_text(root@, BAG_FILE_NAME@),
            None => r matches Err(PropError::BagIo { .. }),
        },
{
    match &store.context().bag_root {
        Some(root) => Ok(my_bag_path(root.as_str())),
        None => Err(
            PropError::BagIo {
                detail: String::from_str(
                    "no bag folder configured: set PALACE_PROP_BAG_DIR or a home directory",
                ),
            },
        ),
    }
}

/// Whether a blob decodes as a prop.
pub open spec fn decodes(blob: Seq<u8>) -> bool {
    spec_decode(blob) matches Some(Ok(_))
}

/// Gather `blob` into My Bag under the identity `(id, crc)`, given My Bag's
/// current bytes; returns the outcome and the bytes to write, if any.
///
/// A blob that is too large, does not decode, or whose payload CRC is not
/// `crc` is rejected before anything is written. An `(id, crc)` already in
/// My Bag is [`GatherOutcome::AlreadyPresent`]. Storage failures (no bag
/// folder, an unreadable My Bag) are errors.
pub fn gather(
    store: &BagStore,
    id: i32,
    crc: u32,
    blob: &[u8],
    name: Option<&str>,
    current: Option<&[u8]>,
) -> (r: Result<(GatherOutcome, Option<Vec<u8>>), PropError>)
    ensures
        blob@.len() > MAX_GATHER_BLOB_BYTES ==> (r matches Ok((GatherOutcome::Rejected(reason), None))
            && reason@ == size_reason(blob@.len())),
        blob@.len() <= MAX_GATHER_BLOB_BYTES && !decodes(blob@) ==> r matches Ok(
            (GatherOutcome::Rejected(_), None),
        ),
        blob@.len() <= MAX_GATHER_BLOB_BYTES && decodes(blob@) && spec_payload_crc(blob@)
            != Some(crc) ==> r matches Ok((GatherOutcome::Rejected(_), None)),
        blob@.len() <= MAX_GATHER_BLOB_BYTES && decodes(blob@) && spec_payload_crc(blob@) == Some(
            crc,
        ) ==> match store.ctx().bag_root {
            None => r is Err,
            Some(root) => {
                let target = join_text(root@, BAG_FILE_NAME@);
                if !(writable(store.ctx(), target) && spec_clean_name(opt_text_of(name)) is Some) {
                    r is Err
                } else {
                    match loaded(opt_bytes(current)) {
                        None => r is Err,
                        Some(v) => if key_index(v.records, PropKey { id, crc }, 0) is Some {
                            r matches Ok((GatherOutcome::AlreadyPresent, None))
                        } else {
                            match written(
                                spec_add_typed(
                                    v,
                                    built_record(
                                        id,
                                        crc,
                                        blob@,
                                        spec_clean_name(opt_text_of(name))->Some_0,
                                    ),
                                    AssetType::Prop,
                                ),
                            ) {
                                Some(b) => r matches Ok((GatherOutcome::Added, Some(bytes)))
                                    && bytes@ == b,
                                None => r is Err,
                            }
                        }
                    }
                }
            },
        },
{
    match size_rejection(blob.len()) {
        Some(reason) => {
            return Ok((GatherOutcome::Rejected(reason), None));
        },
        None => {},
    }
    match decode(blob) {
        Err(e) => {
            let mut reason = String::from_str("the prop does not decode: ");
            let text = e.message();
            push_str(&mut reason, text.as_str());
            return Ok((GatherOutcome::Rejected(reason), None));
        },
        Ok(_) => {},
    }
    match payload_crc(blob) {
        Some(computed) => {
            if computed != crc {
                let mut reason = String::from_str("crc ");
                push_hex8(&mut reason, crc);
                push_str(&mut reason, " does not match the blob's payload crc ");
                push_hex8(&mut reason, computed);
                push_str(&mut reason, "; the record's identity must match its bytes");
                return Ok((GatherOutcome::Rejected(reason), None));
            }
        },
        None => {
            return Ok(
                (
                    GatherOutcome::Rejected(
                        String::from_str("the prop blob is shorter than the 12-byte header"),
                    ),
                    None,
                ),
            );
        },
    }
    let target = match gather_target(store) {
        Ok(t) => t,
        Err(e) => {
            return Err(e);
        },
    };
    match store.add_prop(target.as_str(), id, crc, blob, name, current) {
        Err(e) => Err(e),
        Ok((WriteOutcome::Added, bytes)) => Ok((GatherOutcome::Added, bytes)),
        Ok((WriteOutcome::AlreadyPresent, bytes)) => Ok((GatherOutcome::AlreadyPresent, bytes)),
        Ok((_, _)) => Ok(
            (
                GatherOutcome::Rejected(
                    String::from_str(
                        "the bag store reported an unexpected outcome for a gather",
                    ),
                ),
                None,
            ),
        ),
    }
}

} // verus!
