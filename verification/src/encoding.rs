//! Encoding-preservation policy and prop identity for `.prp` records.
//!
//! Every edit to a roster record is one of exactly two kinds:
//!
//! * a **metadata-only** edit changes the record's name or other map fields but
//!   not the blob, whose bytes (and therefore the pixel encoding they carry)
//!   must survive exactly, which is what [`preserves_encoding`] checks;
//! * a **pixel** edit replaces the blob's payload; only it may re-encode the
//!   blob and recompute its CRC. [`encoding_for_pixels`] is the rule for the
//!   format such an edit produces.
//!
//! The encoding is not stored on disk: it is a property of the blob header's
//! flag word, read back through the codec's selector.

use vstd::prelude::*;

use crate::crc::{payload_crc, spec_payload_crc, ASSET_CRC_MAGIC};
use crate::error::PropError;
use crate::image::PropImage;
use crate::prp::record::spec_encoding;
use crate::prp::{PropEncoding, PropKey, PropRecord};

verus! {

/// Which of the two edits a caller is about to make.
#[derive(Debug, Clone, Copy, PartialEq, Eq, Hash, Structural)]
pub enum EditKind {
    /// The blob is untouched; only record metadata moves.
    MetadataOnly,
    /// The pixel payload is replaced; the blob is re-encoded and its CRC
    /// recomputed.
    PixelChange,
}

/// The encoding a record's header selects, when it has one.
pub open spec fn spec_encoding_of(record: PropRecord) -> Option<PropEncoding> {
    match record.header {
        Some(h) => Some(spec_encoding(h)),
        None => None,
    }
}

/// The pixel encoding a record's blob header selects, or `None` when the blob
/// has no header at all (the `Fave` sentinel has `data_size == 0`).
pub fn encoding_of(record: &PropRecord) -> (r: Option<PropEncoding>)
    ensures
        r == spec_encoding_of(*record),
{
    match record.header {
        Some(h) => Some(h.encoding()),
        None => None,
    }
}

/// Whether an edit kept `original`'s blob bytes and encoding.
///
/// This is the writer's guard for a metadata-only change: a record that passes
/// may be written back with its original blob untouched, byte for byte.
pub fn preserves_encoding(original: &PropRecord, updated: &PropRecord) -> (r: bool)
    ensures
        r == (original.blob@ == updated.blob@ && spec_encoding_of(*original) == spec_encoding_of(
            *updated,
        )),
{
    let same_blob = original.blob == updated.blob;
    proof {
        if same_blob {
            assert(original.blob@ =~= updated.blob@);
        }
    }
    if !same_blob {
        return false;
    }
    match (encoding_of(original), encoding_of(updated)) {
        (Some(a), Some(b)) => a == b,
        (None, None) => true,
        _ => false,
    }
}

/// The encoding a pixel edit must use: S20, the one encoder this crate ships.
///
/// S20 packs pixels in pairs, so an image with an odd width cannot be
/// represented, and neither can a zero-sized one; both are refused.
pub fn encoding_for_pixels(image: &PropImage) -> (r: Result<PropEncoding, PropError>)
    ensures
        (image@.width == 0 || image@.height == 0 || image@.width % 2 != 0) ==> r == Err::<
            PropEncoding,
            PropError,
        >(PropError::UnencodableImage { width: image@.width, height: image@.height }),
        !(image@.width == 0 || image@.height == 0 || image@.width % 2 != 0) ==> r == Ok::<
            PropEncoding,
            PropError,
        >(PropEncoding::S20Bit),
{
    let width = image.width();
    let height = image.height();
    if width == 0 || height == 0 || width % 2 != 0 {
        return Err(PropError::UnencodableImage { width, height });
    }
    Ok(PropEncoding::S20Bit)
}

/// The identity of a standalone blob: id `0` and the payload CRC, the CRC of
/// everything after the 12-byte header. A blob shorter than the header has an
/// empty payload, whose CRC is the seed value.
pub fn identity(blob: &[u8]) -> (r: PropKey)
    ensures
        r == (PropKey {
            id: 0,
            crc: match spec_payload_crc(blob@) {
                Some(c) => c,
                None => ASSET_CRC_MAGIC,
            },
        }),
{
    let crc = match payload_crc(blob) {
        Some(c) => c,
        None => ASSET_CRC_MAGIC,
    };
    PropKey::new(0, crc)
}

/// The safe defaults for the two runtime fields of an asset record on write:
/// `(rHandle, lastUseTime) == (0, 0)`.
pub fn default_asset_fields() -> (r: (i32, i32))
    ensures
        r == (0i32, 0i32),
{
    (0, 0)
}

/// Check that a written record's blob hashes to the CRC the record declares.
///
/// A blob shorter than the 12-byte header is `HeaderTooShort`; a payload that
/// hashes to another value is `PayloadTooShort` carrying the declared CRC as
/// `needed` and the computed one as `available`.
pub fn validate_written(record_blob: &[u8], expected_crc: u32) -> (r: Result<(), PropError>)
    ensures
        r == (match spec_payload_crc(record_blob@) {
            None => Err(PropError::HeaderTooShort { available: record_blob@.len() as usize }),
            Some(c) => if c == expected_crc {
                Ok(())
            } else {
                Err(
                    PropError::PayloadTooShort {
                        format: "record CRC",
                        needed: expected_crc as usize,
                        available: c as usize,
                    },
                )
            },
        }),
{
    match payload_crc(record_blob) {
        None => Err(PropError::HeaderTooShort { available: record_blob.len() }),
        Some(computed) => if computed == expected_crc {
            Ok(())
        } else {
            Err(
                PropError::PayloadTooShort {
                    format: "record CRC",
                    needed: expected_crc as usize,
                    available: computed as usize,
                },
            )
        },
    }
}

} // verus!
