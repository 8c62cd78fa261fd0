//! Error type shared by every decode path.
//!
//! A prop is attacker-controlled data: it comes off the wire, out of an asset
//! file, or from a 1997 room description. Nothing in this crate panics on
//! protocol input; every failure is a [`PropError`].

use vstd::prelude::*;

use crate::text::{push_decimal, push_signed, push_str, spec_decimal, spec_signed_decimal};

verus! {

/// Largest dimension a prop may declare.
pub const MAX_DIMENSION: i16 = 4096;

/// Largest number of pixels we will decode into memory (16 MP RGBA = 64 MiB).
pub const MAX_PIXELS: u64 = 16777216;

/// Anything that can go wrong while decoding or encoding a prop.
#[derive(Debug, Clone, PartialEq, Eq)]
#[allow(inconsistent_fields)]
pub enum PropError {
    /// Fewer than the 12 header bytes were available.
    HeaderTooShort { available: usize },
    /// A dimension in the header was zero, negative or above [`MAX_DIMENSION`].
    ImplausibleDimensions { width: i16, height: i16 },
    /// The width/height product overflowed or exceeded [`MAX_PIXELS`].
    ImageTooLarge { width: i16, height: i16 },
    /// A pixel payload was shorter than the format requires.
    PayloadTooShort { format: &'static str, needed: usize, available: usize },
    /// An 8-bit RLE control byte ran a row past its end.
    RleRowOverflow { row: usize },
    /// An 8-bit RLE stream blew the 6000-control-byte runaway guard.
    RleRunaway { row: usize },
    /// The zlib payload did not decompress.
    Zlib { detail: String },
    /// The zlib payload decompressed, but to fewer bytes than the format needs.
    DecompressedTooShort { format: &'static str, expected: usize, actual: usize },
    /// The zlib payload produced more bytes than the format's cap allows.
    DecompressedTooLarge { format: &'static str, limit: usize },
    /// An encoder was handed an image whose dimensions cannot be encoded.
    UnencodableImage { width: u32, height: u32 },
    /// PNG writing failed (visual inspection only; never part of decoding).
    Png { detail: String },
    /// A prop-bag file or a `.prp` roster could not be read.
    BagIo { detail: String },
    /// A directory contained no matching `*.pids` / `*.props` pair.
    BagNotABundle { path: String },
    /// A prop-bag blob is shorter than the 32-byte per-blob prefix.
    BagBlobTooShort { available: usize },
}

/// The human-readable text of an error.
pub open spec fn spec_message(e: PropError) -> Seq<char> {
    match e {
        PropError::HeaderTooShort { available } => "prop is "@ + spec_decimal(available as nat)
            + " byte(s) long; at least 12 are required for the header"@,
        PropError::ImplausibleDimensions { width, height } => "implausible prop dimensions "@
            + spec_signed_decimal(width as int) + "x"@ + spec_signed_decimal(height as int),
        PropError::ImageTooLarge { width, height } => "prop dimensions "@ + spec_signed_decimal(
            width as int,
        ) + "x"@ + spec_signed_decimal(height as int) + " exceed the "@ + spec_decimal(
            MAX_PIXELS as nat,
        ) + "-pixel decode budget"@,
        PropError::PayloadTooShort { format, needed, available } => format@ + " payload needs "@
            + spec_decimal(needed as nat) + " byte(s) but only "@ + spec_decimal(available as nat)
            + " are present"@,
        PropError::RleRowOverflow { row } => "8-bit RLE row "@ + spec_decimal(row as nat)
            + " ran past the end of the scanline"@,
        PropError::RleRunaway { row } => "8-bit RLE tripped the reference runaway guard at row "@
            + spec_decimal(row as nat),
        PropError::Zlib { detail } => "zlib payload did not decompress: "@ + detail@,
        PropError::DecompressedTooShort { format, expected, actual } => format@
            + " payload decompressed to "@ + spec_decimal(actual as nat)
            + " byte(s), expected at least "@ + spec_decimal(expected as nat),
        PropError::DecompressedTooLarge { format, limit } => format@
            + " payload decompressed past the "@ + spec_decimal(limit as nat)
            + "-byte cap; refusing to inflate further"@,
        PropError::UnencodableImage { width, height } => "cannot encode a "@ + spec_decimal(
            width as nat,
        ) + "x"@ + spec_decimal(height as nat) + " image (S20 props are 44x44)"@,
        PropError::Png { detail } => "could not write PNG: "@ + detail@,
        PropError::BagIo { detail } => "prop bag: "@ + detail@,
        PropError::BagNotABundle { path } => path@
            + ": no matching .pids/.props pair found in this directory"@,
        PropError::BagBlobTooShort { available } => "prop bag blob is "@ + spec_decimal(
            available as nat,
        ) + " byte(s) long; at least 32 are required for the bag prefix"@,
    }
}

impl PropError {
    /// The human-readable description of this error.
    pub fn message(&self) -> (r: String)
        ensures
            r@ == spec_message(*self),
    {
        let mut s = String::new();
        match self {
            PropError::HeaderTooShort { available } => {
                push_str(&mut s, "prop is ");
                push_decimal(&mut s, *available as u64);
                push_str(&mut s, " byte(s) long; at least 12 are required for the header");
            },
            PropError::ImplausibleDimensions { width, height } => {
                push_str(&mut s, "implausible prop dimensions ");
                push_signed(&mut s, *width as i64);
                push_str(&mut s, "x");
                push_signed(&mut s, *height as i64);
            },
            PropError::ImageTooLarge { width, height } => {
                push_str(&mut s, "prop dimensions ");
                push_signed(&mut s, *width as i64);
                push_str(&mut s, "x");
                push_signed(&mut s, *height as i64);
                push_str(&mut s, " exceed the ");
                push_decimal(&mut s, MAX_PIXELS);
                push_str(&mut s, "-pixel decode budget");
            },
            PropError::PayloadTooShort { format, needed, available } => {
                push_str(&mut s, format);
                push_str(&mut s, " payload needs ");
                push_decimal(&mut s, *needed as u64);
                push_str(&mut s, " byte(s) but only ");
                push_decimal(&mut s, *available as u64);
                push_str(&mut s, " are present");
            },
            PropError::RleRowOverflow { row } => {
                push_str(&mut s, "8-bit RLE row ");
                push_decimal(&mut s, *row as u64);
                push_str(&mut s, " ran past the end of the scanline");
            },
            PropError::RleRunaway { row } => {
                push_str(&mut s, "8-bit RLE tripped the reference runaway guard at row ");
                push_decimal(&mut s, *row as u64);
            },
            PropError::Zlib { detail } => {
                push_str(&mut s, "zlib payload did not decompress: ");
                push_str(&mut s, detail.as_str());
            },
            PropError::DecompressedTooShort { format, expected, actual } => {
                push_str(&mut s, format);
                push_str(&mut s, " payload decompressed to ");
                push_decimal(&mut s, *actual as u64);
                push_str(&mut s, " byte(s), expected at least ");
                push_decimal(&mut s, *expected as u64);
            },
            PropError::DecompressedTooLarge { format, limit } => {
                push_str(&mut s, format);
                push_str(&mut s, " payload decompressed past the ");
                push_decimal(&mut s, *limit as u64);
                push_str(&mut s, "-byte cap; refusing to inflate further");
            },
            PropError::UnencodableImage { width, height } => {
                push_str(&mut s, "cannot encode a ");
                push_decimal(&mut s, *width as u64);
                push_str(&mut s, "x");
                push_decimal(&mut s, *height as u64);
                push_str(&mut s, " image (S20 props are 44x44)");
            },
            PropError::Png { detail } => {
                push_str(&mut s, "could not write PNG: ");
                push_str(&mut s, detail.as_str());
            },
            PropError::BagIo { detail } => {
                push_str(&mut s, "prop bag: ");
                push_str(&mut s, detail.as_str());
            },
            PropError::BagNotABundle { path } => {
                push_str(&mut s, path.as_str());
                push_str(&mut s, ": no matching .pids/.props pair found in this directory");
            },
            PropError::BagBlobTooShort { available } => {
                push_str(&mut s, "prop bag blob is ");
                push_decimal(&mut s, *available as u64);
                push_str(&mut s, " byte(s) long; at least 32 are required for the bag prefix");
            },
        }
        proof {
            assert(s@ =~= spec_message(*self));
        }
        s
    }
}

} // verus!
