//! The per-record half of the model: the raw 12-byte blob header, the pixel
//! encoding it selects, the record identity `(id, crc)` and the record itself.
//!
//! The encoding is not stored on disk anywhere; it is a property of the blob
//! header's flag word, recomputed through the codec's own selector.

use vstd::prelude::*;

use crate::error::PropError;
use crate::header::{self, spec_format, spec_word, PropEndian, PropFormat};

use super::model::AssetRec;

verus! {

/// Bytes in a serialised [`PropHeader`].
pub const PROP_HEADER_LEN: usize = 12;

/// Longest name entry the one-byte length prefix can describe.
pub const MAX_NAME_LEN: usize = 255;

/// The 12-byte prop blob header as stored in a `.prp` data region: six
/// little-endian `s16` words, with no byte-order sniff.
#[derive(Debug, Clone, Copy, PartialEq, Eq, Hash, Default, Structural)]
pub struct PropHeader {
    /// Width in pixels.
    pub width: i16,
    /// Height in pixels.
    pub height: i16,
    /// Horizontal origin offset (signed; may be negative).
    pub h_offset: i16,
    /// Vertical origin offset (signed; may be negative).
    pub v_offset: i16,
    /// Byte offset of the prop's script; 0 in practice.
    pub script_offset: i16,
    /// The prop's flag word.
    pub flags: u16,
}

/// The little-endian header fields at the start of `bytes`.
pub open spec fn spec_record_header(bytes: Seq<u8>) -> PropHeader {
    PropHeader {
        width: spec_word(bytes, 0, PropEndian::Little),
        height: spec_word(bytes, 2, PropEndian::Little),
        h_offset: spec_word(bytes, 4, PropEndian::Little),
        v_offset: spec_word(bytes, 6, PropEndian::Little),
        script_offset: spec_word(bytes, 8, PropEndian::Little),
        flags: spec_word(bytes, 10, PropEndian::Little) as u16,
    }
}

/// The header of a blob, when it has at least 12 bytes.
pub open spec fn spec_blob_header(blob: Seq<u8>) -> Option<PropHeader> {
    if blob.len() >= PROP_HEADER_LEN {
        Some(spec_record_header(blob))
    } else {
        None
    }
}

/// The encoding a record header selects.
pub open spec fn spec_encoding(h: PropHeader) -> PropEncoding {
    spec_encoding_of_format(spec_format(h.flags))
}

/// The `.prp` name of a codec format.
pub open spec fn spec_encoding_of_format(format: PropFormat) -> PropEncoding {
    match format {
        PropFormat::EightBit => PropEncoding::EightBit,
        PropFormat::SixteenBit => PropEncoding::SixteenBit,
        PropFormat::TwentyBit => PropEncoding::TwentyBit,
        PropFormat::S20Bit => PropEncoding::S20Bit,
        PropFormat::ThirtyTwoBit => PropEncoding::ThirtyTwoBit,
    }
}

/// The encoding of a blob, when it has a header.
pub open spec fn spec_blob_encoding(blob: Seq<u8>) -> Option<PropEncoding> {
    match spec_blob_header(blob) {
        Some(h) => Some(spec_encoding(h)),
        None => None,
    }
}

impl PropHeader {
    /// Read the six little-endian words at the start of `bytes`.
    ///
    /// Fails only when fewer than 12 bytes are available.
    pub fn parse(bytes: &[u8]) -> (r: Result<Self, PropError>)
        ensures
            bytes@.len() < PROP_HEADER_LEN ==> r == Err::<Self, PropError>(
                PropError::HeaderTooShort { available: bytes@.len() as usize },
            ),
            bytes@.len() >= PROP_HEADER_LEN ==> r == Ok::<Self, PropError>(
                spec_record_header(bytes@),
            ),
    {
        if bytes.len() < PROP_HEADER_LEN {
            return Err(PropError::HeaderTooShort { available: bytes.len() });
        }
        Ok(
            PropHeader {
                width: header::read_word(bytes, 0, PropEndian::Little),
                height: header::read_word(bytes, 2, PropEndian::Little),
                h_offset: header::read_word(bytes, 4, PropEndian::Little),
                v_offset: header::read_word(bytes, 6, PropEndian::Little),
                script_offset: header::read_word(bytes, 8, PropEndian::Little),
                flags: header::read_word(bytes, 10, PropEndian::Little) as u16,
            },
        )
    }

    /// Serialise back to the exact 12 little-endian bytes stored on disk.
    pub fn encode(&self) -> (r: [u8; 12])
        ensures
            r@ == header::spec_encode_header(self.codec_spec()),
    {
        self.codec_header().encode()
    }

    /// The codec's view of these fields, as a little-endian prop.
    pub open spec fn codec_spec(self) -> header::PropHeader {
        header::PropHeader {
            width: self.width,
            height: self.height,
            h_offset: self.h_offset,
            v_offset: self.v_offset,
            script_offset: self.script_offset,
            flags: self.flags,
            endian: PropEndian::Little,
        }
    }

    /// The codec's semantic header for these fields, as a little-endian prop.
    pub fn codec_header(self) -> (r: header::PropHeader)
        ensures
            r == self.codec_spec(),
    {
        header::PropHeader {
            width: self.width,
            height: self.height,
            h_offset: self.h_offset,
            v_offset: self.v_offset,
            script_offset: self.script_offset,
            flags: self.flags,
            endian: PropEndian::Little,
        }
    }

    /// The pixel encoding `flags` selects.
    pub fn encoding(self) -> (r: PropEncoding)
        ensures
            r == spec_encoding(self),
    {
        PropEncoding::from_format(self.codec_header().format())
    }

    /// `HEAD 0x02`.
    pub fn is_head(self) -> (r: bool)
        ensures
            r == (self.flags & header::FLAG_HEAD != 0),
    {
        self.flags & header::FLAG_HEAD != 0
    }

    /// `GHOST 0x04`.
    pub fn is_ghost(self) -> (r: bool)
        ensures
            r == (self.flags & header::FLAG_GHOST != 0),
    {
        self.flags & header::FLAG_GHOST != 0
    }
}

/// The five pixel encodings a prop blob can carry, selected by its header flags.
#[derive(Debug, Clone, Copy, PartialEq, Eq, Hash, Structural)]
pub enum PropEncoding {
    /// Nibble run-length, palette-indexed, uncompressed.
    EightBit,
    /// 5-5-5-1, zlib-compressed.
    SixteenBit,
    /// 6-6-6-2, zlib-compressed.
    TwentyBit,
    /// 5-5-5-5, zlib-compressed.
    S20Bit,
    /// 4-byte RGBA, zlib-compressed.
    ThirtyTwoBit,
}

impl PropEncoding {
    /// The encoding a codec [`PropFormat`] corresponds to.
    pub fn from_format(format: PropFormat) -> (r: Self)
        ensures
            r == spec_encoding_of_format(format),
    {
        match format {
            PropFormat::EightBit => PropEncoding::EightBit,
            PropFormat::SixteenBit => PropEncoding::SixteenBit,
            PropFormat::TwentyBit => PropEncoding::TwentyBit,
            PropFormat::S20Bit => PropEncoding::S20Bit,
            PropFormat::ThirtyTwoBit => PropEncoding::ThirtyTwoBit,
        }
    }

    /// Select the encoding for a raw flag word.
    pub fn from_flags(flags: u16) -> (r: Self)
        ensures
            r == spec_encoding_of_format(spec_format(flags)),
    {
        let placeholder = PropHeader {
            width: 0,
            height: 0,
            h_offset: 0,
            v_offset: 0,
            script_offset: 0,
            flags,
        };
        placeholder.encoding()
    }

    /// A stable lowercase name, matching [`PropFormat::name`].
    pub fn name(self) -> (r: &'static str)
        ensures
            r == (match self {
                PropEncoding::EightBit => "8-bit",
                PropEncoding::SixteenBit => "16-bit",
                PropEncoding::TwentyBit => "20-bit",
                PropEncoding::S20Bit => "s20-bit",
                PropEncoding::ThirtyTwoBit => "32-bit",
            }),
    {
        match self {
            PropEncoding::EightBit => "8-bit",
            PropEncoding::SixteenBit => "16-bit",
            PropEncoding::TwentyBit => "20-bit",
            PropEncoding::S20Bit => "s20-bit",
            PropEncoding::ThirtyTwoBit => "32-bit",
        }
    }

    /// Whether the pixel payload is wrapped in zlib (everything but 8-bit).
    pub fn is_zlib(self) -> (r: bool)
        ensures
            r == (self != PropEncoding::EightBit),
    {
        match self {
            PropEncoding::EightBit => false,
            _ => true,
        }
    }
}

/// The identity of a prop record: `(id, crc)`.
///
/// The id alone is not unique: a single id may carry several records that
/// differ only in `crc`. Ordering is by signed `id`, then `crc`, so each run of
/// one id stays adjacent.
#[derive(Debug, Clone, Copy, PartialEq, Eq, Hash, PartialOrd, Ord, Structural)]
pub struct PropKey {
    /// The prop id, compared signed.
    pub id: i32,
    /// The payload CRC, which distinguishes variants of one id.
    pub crc: u32,
}

impl PropKey {
    /// Build a key.
    pub fn new(id: i32, crc: u32) -> (r: Self)
        ensures
            r == (PropKey { id, crc }),
    {
        PropKey { id, crc }
    }
}

/// One roster record: the on-disk [`AssetRec`], the raw blob, and what the blob
/// says about itself.
#[derive(Debug, Clone, PartialEq, Eq)]
pub struct PropRecord {
    /// The 32-byte on-disk record, preserved verbatim.
    pub rec: AssetRec,
    /// The blob's raw 12-byte header, when the blob is at least 12 bytes long.
    pub header: Option<PropHeader>,
    /// The encoding selected by the blob header's flags, when a header is present.
    pub encoding: Option<PropEncoding>,
    /// The blob exactly as stored: `data_size` bytes, 12-byte header included.
    pub blob: Vec<u8>,
    /// The name resolved through `name_offset`; `None` when unnamed or unresolved.
    pub name: Option<String>,
}

/// The abstract content of a record, with its blob and name taken by view.
pub struct RecordView {
    /// The on-disk record.
    pub rec: AssetRec,
    /// The blob's header, when present.
    pub header: Option<PropHeader>,
    /// The blob's encoding, when present.
    pub encoding: Option<PropEncoding>,
    /// The blob bytes.
    pub blob: Seq<u8>,
    /// The resolved name.
    pub name: Option<Seq<char>>,
}

/// The view of an optional string.
pub open spec fn opt_text(name: Option<String>) -> Option<Seq<char>> {
    match name {
        Some(s) => Some(s@),
        None => None,
    }
}

impl View for PropRecord {
    type V = RecordView;

    open spec fn view(&self) -> RecordView {
        RecordView {
            rec: self.rec,
            header: self.header,
            encoding: self.encoding,
            blob: self.blob@,
            name: opt_text(self.name),
        }
    }
}

impl PropRecord {
    /// The key of a record.
    pub open spec fn spec_key(&self) -> PropKey {
        PropKey { id: self.rec.id, crc: self.rec.crc }
    }

    /// This record's identity.
    pub fn key(&self) -> (r: PropKey)
        ensures
            r == self.spec_key(),
    {
        PropKey::new(self.rec.id, self.rec.crc)
    }

    /// The prop id (signed).
    pub fn id(&self) -> (r: i32)
        ensures
            r == self.rec.id,
    {
        self.rec.id
    }

    /// The payload CRC.
    pub fn crc(&self) -> (r: u32)
        ensures
            r == self.rec.crc,
    {
        self.rec.crc
    }

    /// The prop's own flag word, from the blob header. Zero for a headerless
    /// blob. This is not `AssetRec::flags`, which is runtime state.
    pub fn prop_flags(&self) -> (r: u16)
        ensures
            r == (match self.header {
                Some(h) => h.flags,
                None => 0u16,
            }),
    {
        match self.header {
            Some(h) => h.flags,
            None => 0,
        }
    }
}

} // verus!
