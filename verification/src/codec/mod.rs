//! The five pixel decoders, plus the shared zlib step.
//!
//! Every decoder takes the payload *after* the 12-byte header and returns a
//! [`PropImage`]. None of them may panic: lengths are checked before every read
//! and every buffer index is derived from a validated dimension.

use vstd::prelude::*;

use crate::error::{PropError, MAX_PIXELS};
use crate::header::{spec_format, spec_format_name, spec_payload_bytes_for, PropFormat, PropHeader};
use crate::image::{ImageView, PropImage};
use crate::zlib::{zlib_inflate_limited, zlib_read_limited};

pub mod eight;
pub mod s20;
pub mod sixteen;
pub mod thirtytwo;
pub mod twenty;

verus! {

/// Extra decompressed bytes tolerated past what a format needs.
pub const INFLATE_SLACK: usize = 4096;

/// The output of a decoder, with the image taken by its view.
pub open spec fn image_result(r: Result<PropImage, PropError>) -> Result<ImageView, PropError> {
    match r {
        Ok(img) => Ok(img@),
        Err(e) => Err(e),
    }
}

/// A `width` x `height` image and its scratch buffers fit in the address
/// space: eight bytes per pixel.
pub open spec fn fits_in_memory(width: u32, height: u32) -> bool {
    width as int * height as int * 8 <= usize::MAX
}

/// An `n`-bit colour field scaled to 8 bits: `value * 255 / max`, truncated.
pub open spec fn spec_scale(value: u32, max: u32) -> u8 {
    ((value * 255) / (max as int)) as u8
}

/// Pack an A/R/G/B quad into the ARGB word order.
pub open spec fn spec_argb(a: u8, r: u8, g: u8, b: u8) -> u32 {
    ((a as u32) << 24u32) | ((r as u32) << 16u32) | ((g as u32) << 8u32) | (b as u32)
}

/// Scale an `n`-bit colour field to 8 bits the way the reference does:
/// `value * 255 / max` in integer arithmetic.
pub fn scale(value: u32, max: u32) -> (r: u8)
    requires
        0 < max,
        value <= 255,
    ensures
        r == spec_scale(value, max),
{
    ((value * 255) / max) as u8
}

/// Pack an A/R/G/B quad into the internal ARGB word order.
pub fn argb(a: u8, r: u8, g: u8, b: u8) -> (w: u32)
    ensures
        w == spec_argb(a, r, g, b),
{
    ((a as u32) << 24u32) | ((r as u32) << 16u32) | ((g as u32) << 8u32) | (b as u32)
}

/// The cap [`inflate`] puts on a stream that must hold `needed` bytes.
pub open spec fn inflate_cap(needed: int) -> int {
    if needed + INFLATE_SLACK <= usize::MAX {
        needed + INFLATE_SLACK
    } else {
        usize::MAX as int
    }
}

/// The read limit [`inflate`] hands the decoder: one byte past the cap.
pub open spec fn inflate_limit(needed: int) -> nat {
    if inflate_cap(needed) + 1 <= usize::MAX {
        (inflate_cap(needed) + 1) as nat
    } else {
        usize::MAX as nat
    }
}

/// What [`inflate`] returns for a stream that must hold `needed` bytes, or
/// `None` when the zlib stream itself is broken (its error text is the
/// decoder's).
pub open spec fn spec_inflate(payload: Seq<u8>, needed: int, format: PropFormat) -> Option<
    Result<Seq<u8>, PropError>,
> {
    match zlib_inflate_limited(payload, inflate_limit(needed)) {
        None => None,
        Some(out) => Some(
            if out.len() > inflate_cap(needed) {
                Err(
                    PropError::DecompressedTooLarge {
                        format: spec_format_name(format),
                        limit: inflate_cap(needed) as usize,
                    },
                )
            } else if out.len() < needed {
                Err(
                    PropError::DecompressedTooShort {
                        format: spec_format_name(format),
                        expected: needed as usize,
                        actual: out.len() as usize,
                    },
                )
            } else {
                Ok(out)
            },
        ),
    }
}

/// Inflate a zlib-wrapped payload and require at least `needed` bytes.
///
/// Trailing bytes are tolerated up to [`INFLATE_SLACK`] past `needed`; a stream
/// longer than that is refused rather than buffered.
pub fn inflate(payload: &[u8], needed: usize, format: PropFormat) -> (r: Result<Vec<u8>, PropError>)
    ensures
        match spec_inflate(payload@, needed as int, format) {
            Some(res) => match (r, res) {
                (Ok(v), Ok(s)) => v@ == s,
                (Err(e), Err(f)) => e == f,
                _ => false,
            },
            None => r matches Err(PropError::Zlib { .. }),
        },
{
    let cap = needed.saturating_add(INFLATE_SLACK);
    let limit = cap.saturating_add(1);
    let out = match zlib_read_limited(payload, limit as u64) {
        Ok(out) => out,
        Err(detail) => {
            return Err(PropError::Zlib { detail });
        },
    };
    if out.len() > cap {
        return Err(PropError::DecompressedTooLarge { format: format.name(), limit: cap });
    }
    if out.len() < needed {
        return Err(
            PropError::DecompressedTooShort {
                format: format.name(),
                expected: needed,
                actual: out.len(),
            },
        );
    }
    Ok(out)
}

/// The image dimensions a header describes, as unsigned magnitudes.
pub open spec fn abs_dim(v: i16) -> u32 {
    if v < 0 {
        (-(v as int)) as u32
    } else {
        v as u32
    }
}

/// The stream a decoder receives for a header's format: the raw payload for
/// 8-bit, the inflated stream for the others.
pub open spec fn spec_decode_stream(format: PropFormat, data: Seq<u8>, width: u32, height: u32) -> Result<
    ImageView,
    PropError,
> {
    match format {
        PropFormat::EightBit => crate::codec::eight::spec_decode_eight(data, width, height),
        PropFormat::SixteenBit => crate::codec::sixteen::spec_decode_sixteen(data, width, height),
        PropFormat::TwentyBit => crate::codec::twenty::spec_decode_twenty(data, width, height),
        PropFormat::S20Bit => crate::codec::s20::spec_decode_s20(data, width, height),
        PropFormat::ThirtyTwoBit => crate::codec::thirtytwo::spec_decode_thirtytwo(
            data,
            width,
            height,
        ),
    }
}

/// What [`decode_payload`] returns, or `None` when the zlib stream itself is
/// broken.
pub open spec fn spec_decode_payload(header: PropHeader, payload: Seq<u8>) -> Option<
    Result<ImageView, PropError>,
> {
    let product = header.width as int * header.height as int;
    let format = spec_format(header.flags);
    let width = abs_dim(header.width);
    let height = abs_dim(header.height);
    if product < 0 {
        Some(Err(PropError::ImageTooLarge { width: header.width, height: header.height }))
    } else if product > MAX_PIXELS {
        Some(Err(PropError::ImageTooLarge { width: header.width, height: header.height }))
    } else if format == PropFormat::EightBit {
        Some(spec_decode_stream(format, payload, width, height))
    } else {
        match spec_inflate(payload, spec_payload_bytes_for(format, product), format) {
            None => None,
            Some(Err(e)) => Some(Err(e)),
            Some(Ok(data)) => Some(spec_decode_stream(format, data, width, height)),
        }
    }
}

/// Decode the payload of a prop whose header has already been parsed.
pub fn decode_payload(header: &PropHeader, payload: &[u8]) -> (r: Result<PropImage, PropError>)
    ensures
        match spec_decode_payload(*header, payload@) {
            Some(res) => image_result(r) == res,
            None => r matches Err(PropError::Zlib { .. }),
        },
        r matches Ok(img) ==> img.wf(),
{
    let format = header.format();
    proof {
        let wd = header.width as int;
        let ht = header.height as int;
        assert(wd * ht <= 32768 * 32768) by (nonlinear_arith)
            requires
                -32768 <= wd <= 32767,
                -32768 <= ht <= 32767,
        ;
    }
    let pixels = match header.pixel_count() {
        Ok(p) => p as usize,
        Err(e) => {
            return Err(e);
        },
    };
    if pixels as u64 > MAX_PIXELS {
        return Err(PropError::ImageTooLarge { width: header.width, height: header.height });
    }
    let width = abs_u32(header.width);
    let height = abs_u32(header.height);
    proof {
        lemma_abs_product(header.width, header.height);
        assert(width as int * height as int == pixels);
        assert(pixels <= MAX_PIXELS);
        assert(fits_in_memory(width, height));
    }
    match format {
        PropFormat::EightBit => crate::codec::eight::decode(payload, width, height),
        PropFormat::SixteenBit => {
            let data = match inflate(payload, format.payload_bytes_for(pixels), format) {
                Ok(d) => d,
                Err(e) => {
                    return Err(e);
                },
            };
            crate::codec::sixteen::decode(data.as_slice(), width, height)
        },
        PropFormat::TwentyBit => {
            let data = match inflate(payload, format.payload_bytes_for(pixels), format) {
                Ok(d) => d,
                Err(e) => {
                    return Err(e);
                },
            };
            crate::codec::twenty::decode(data.as_slice(), width, height)
        },
        PropFormat::S20Bit => {
            let data = match inflate(payload, format.payload_bytes_for(pixels), format) {
                Ok(d) => d,
                Err(e) => {
                    return Err(e);
                },
            };
            crate::codec::s20::decode(data.as_slice(), width, height)
        },
        PropFormat::ThirtyTwoBit => {
            let data = match inflate(payload, format.payload_bytes_for(pixels), format) {
                Ok(d) => d,
                Err(e) => {
                    return Err(e);
                },
            };
            crate::codec::thirtytwo::decode(data.as_slice(), width, height)
        },
    }
}

/// The magnitude of a header dimension.
pub fn abs_u32(v: i16) -> (r: u32)
    ensures
        r == abs_dim(v),
{
    if v < 0 {
        (-(v as i32)) as u32
    } else {
        v as u32
    }
}

/// The magnitudes of two dimensions multiply to the magnitude of their product.
pub proof fn lemma_abs_product(width: i16, height: i16)
    requires
        width as int * height as int >= 0,
    ensures
        abs_dim(width) as int * abs_dim(height) as int == width as int * height as int,
{
    assert(abs_dim(width) as int * abs_dim(height) as int == width as int * height as int)
        by (nonlinear_arith)
        requires
            width as int * height as int >= 0,
            abs_dim(width) as int == (if width < 0 { -(width as int) } else { width as int }),
            abs_dim(height) as int == (if height < 0 { -(height as int) } else { height as int }),
    ;
}

} // verus!
