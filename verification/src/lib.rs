//! `palace_prop` — the Palace prop (sprite) codec, with its `.prp` roster
//! container and prop-bag readers.
//!
//! A prop is a 12-byte header of six signed 16-bit words (`width`, `height`,
//! `hOffset`, `vOffset`, `scriptOffset`, `flags`) followed by a pixel payload in
//! one of five encodings. The header's byte order is sniffed per prop: it is
//! little-endian when `data[1] == 0`, big-endian otherwise. The 8-bit payload
//! is raw nibble run-length over a 256-entry palette; the other four are
//! zlib-compressed. [`decode`] reads the whole thing and never panics on
//! protocol data.

use vstd::prelude::*;

pub mod animated;
pub mod bag;
pub mod bag_catalog;
pub mod bag_folder;
pub mod bag_store;
pub mod catalog;
pub mod catalog_paging;
pub mod codec;
pub mod collection_order;
pub mod crc;
pub mod crc_repair;
pub mod editor;
pub mod encode;
pub mod encoding;
pub mod gather;
pub mod error;
pub mod favorites_read_back;
pub mod favorites_trash;
pub mod outfit_ops;
pub mod outfits;
pub mod header;
pub mod image;
pub mod json;
pub mod palette;
pub mod paths;
pub mod png_codec;
pub mod provenance;
pub mod shelves;
pub mod prp;
pub mod prop_animated_recon;
pub mod prop_catalog;
pub mod text;
pub mod tool;
pub mod trash_doc;
pub mod trash_round_trip;
pub mod zlib;

use crate::codec::spec_decode_payload;
use crate::error::PropError;
use crate::header::{spec_parse_header, PropFormat, PropHeader, HEADER_LEN};
use crate::image::{ImageView, PropImage};

verus! {

/// A decoded prop: its header plus its pixels.
#[derive(Debug, Clone, PartialEq, Eq)]
pub struct Prop {
    /// The parsed 12-byte header.
    pub header: PropHeader,
    /// The decoded image.
    pub image: PropImage,
}

/// The abstract content of a decoded prop.
pub struct PropView {
    /// The parsed header.
    pub header: PropHeader,
    /// The decoded image.
    pub image: ImageView,
}

/// The output of [`decode`], with the image taken by its view.
pub open spec fn prop_result(r: Result<Prop, PropError>) -> Result<PropView, PropError> {
    match r {
        Ok(p) => Ok(PropView { header: p.header, image: p.image@ }),
        Err(e) => Err(e),
    }
}

/// What [`decode`] returns for a blob, or `None` when the blob's zlib stream
/// itself is broken (the error then carries the decoder's text).
pub open spec fn spec_decode(data: Seq<u8>) -> Option<Result<PropView, PropError>> {
    match spec_parse_header(data) {
        Err(e) => Some(Err(e)),
        Ok(h) => match spec_decode_payload(h, data.subrange(HEADER_LEN as int, data.len() as int)) {
            None => None,
            Some(Err(e)) => Some(Err(e)),
            Some(Ok(img)) => Some(Ok(PropView { header: h, image: img })),
        },
    }
}

impl Prop {
    /// Which of the five encodings this prop used.
    pub fn format(&self) -> (r: PropFormat)
        ensures
            r == crate::header::spec_format(self.header.flags),
    {
        self.header.format()
    }

    /// Re-encode the pixels as an S20 prop blob, preserving this prop's offsets
    /// and its head/ghost/rare/animate/bounce bits.
    pub fn encode_s20(&self) -> (r: Result<Vec<u8>, PropError>)
        requires
            self.image.wf(),
        ensures
            crate::encode::s20_blob_outcome(
                self.image@,
                self.header.h_offset,
                self.header.v_offset,
                self.header.flags,
                r,
            ),
    {
        crate::encode::encode_s20_blob(
            &self.image,
            self.header.h_offset,
            self.header.v_offset,
            self.header.flags,
        )
    }
}

/// Decode a complete prop blob: the 12-byte header followed by the payload.
///
/// It never panics, whatever the bytes contain: a malformed prop produces a
/// [`PropError`].
pub fn decode(data: &[u8]) -> (r: Result<Prop, PropError>)
    ensures
        match spec_decode(data@) {
            Some(res) => prop_result(r) == res,
            None => r matches Err(PropError::Zlib { .. }),
        },
        r matches Ok(p) ==> p.image.wf(),
{
    let header = match PropHeader::parse(data) {
        Ok(h) => h,
        Err(e) => {
            return Err(e);
        },
    };
    let payload = &data[HEADER_LEN..data.len()];
    match crate::codec::decode_payload(&header, payload) {
        Ok(image) => Ok(Prop { header, image }),
        Err(e) => Err(e),
    }
}

/// Decode only the header, without touching the pixel payload.
pub fn decode_header(data: &[u8]) -> (r: Result<PropHeader, PropError>)
    ensures
        r == spec_parse_header(data@),
{
    PropHeader::parse(data)
}

} // verus!
