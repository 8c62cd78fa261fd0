//! 16-bit: two bytes per pixel, RGB555 plus a one-bit alpha.
//!
//! Per pixel, the 16-bit big-endian word is laid out:
//!
//! ```text
//! bit  15..11  10..6   5..1   0
//!      red     green   blue   alpha
//! ```
//!
//! The word is read big-endian regardless of the header's byte order, which is
//! what the reference does.

use vstd::prelude::*;

use crate::codec::{argb, fits_in_memory, image_result, scale, spec_argb, spec_scale};
use crate::error::PropError;
use crate::image::{argb_to_rgba, ImageView, PropImage};

verus! {

/// The packed ARGB word of pixel `i` of a 16-bit stream.
pub open spec fn sixteen_word(data: Seq<u8>, i: int) -> u32 {
    let c0 = data[2 * i] as u32;
    let c1 = data[2 * i + 1] as u32;
    let word = (c0 << 8u32) | c1;
    spec_argb(
        ((word & 1u32) * 255) as u8,
        spec_scale(((c0 >> 3u32) & 31u32) as u32, 31),
        spec_scale(((word >> 6u32) & 31u32) as u32, 31),
        spec_scale(((word >> 1u32) & 31u32) as u32, 31),
    )
}

/// What [`decode`] returns for a 16-bit stream.
pub open spec fn spec_decode_sixteen(data: Seq<u8>, width: u32, height: u32) -> Result<
    ImageView,
    PropError,
> {
    let pixels = width as int * height as int;
    let needed = pixels * 2;
    if data.len() < needed {
        Err(
            PropError::DecompressedTooShort {
                format: "16-bit",
                expected: needed as usize,
                actual: data.len() as usize,
            },
        )
    } else {
        Ok(
            ImageView {
                width,
                height,
                rgba: argb_to_rgba(Seq::new(pixels as nat, |i: int| sixteen_word(data, i))),
            },
        )
    }
}

/// Decode pixel `i` of a 16-bit stream.
pub fn sixteen_pixel(data: &[u8], i: usize) -> (r: u32)
    requires
        2 * i + 2 <= data@.len(),
    ensures
        r == sixteen_word(data@, i as int),
{
    let _len = data.len();
    let c0 = data[2 * i] as u32;
    let c1 = data[2 * i + 1] as u32;
    assert(c0 < 256 && c1 < 256);
    let word = (c0 << 8u32) | c1;
    assert(((c0 >> 3u32) & 31u32) <= 31u32) by (bit_vector);
    assert((((c0 << 8u32) | c1) >> 6u32) & 31u32 <= 31u32) by (bit_vector);
    assert((((c0 << 8u32) | c1) >> 1u32) & 31u32 <= 31u32) by (bit_vector);
    assert((((c0 << 8u32) | c1) & 1u32) <= 1u32) by (bit_vector);
    argb(
        ((word & 1u32) * 255) as u8,
        scale((c0 >> 3u32) & 31u32, 31),
        scale((word >> 6u32) & 31u32, 31),
        scale((word >> 1u32) & 31u32, 31),
    )
}

/// Decode a 16-bit payload into a `width` x `height` image.
pub fn decode(data: &[u8], width: u32, height: u32) -> (r: Result<PropImage, PropError>)
    requires
        fits_in_memory(width, height),
    ensures
        image_result(r) == spec_decode_sixteen(data@, width, height),
        r matches Ok(img) ==> img.wf(),
{
    let pixels = (width as usize) * (height as usize);
    let needed = pixels * 2;
    if data.len() < needed {
        return Err(
            PropError::DecompressedTooShort { format: "16-bit", expected: needed, actual: data.len() },
        );
    }
    let mut words: Vec<u32> = Vec::new();
    let mut i: usize = 0;
    while i < pixels
        invariant
            i <= pixels,
            pixels == width as int * height as int,
            pixels * 2 <= data@.len(),
            words@.len() == i,
            forall|j: int| 0 <= j < i ==> words@[j] == sixteen_word(data@, j),
        decreases pixels - i,
    {
        words.push(sixteen_pixel(data, i));
        i = i + 1;
    }
    assert(words@ =~= Seq::new(pixels as nat, |j: int| sixteen_word(data@, j)));
    Ok(PropImage::from_argb(width, height, words.as_slice()))
}

/// Each pixel of a 16-bit image comes from its own two bytes: pixel `i`
/// decodes exactly as the one-pixel image made of bytes `2 * i .. 2 * i + 2`
/// alone, whatever the other bytes hold.
pub proof fn lemma_sixteen_pixel_from_its_bytes(data: Seq<u8>, width: u32, height: u32, i: int)
    requires
        0 <= i < width as int * height as int,
    ensures
        spec_decode_sixteen(data, width, height) matches Ok(img) ==> (spec_decode_sixteen(
            data.subrange(2 * i, 2 * i + 2),
            1,
            1,
        ) matches Ok(one) && img.rgba.subrange(4 * i, 4 * i + 4) == one.rgba),
{
    let n = width as int * height as int;
    if data.len() >= n * 2 {
        let g = data.subrange(2 * i, 2 * i + 2);
        let words = Seq::new(n as nat, |j: int| sixteen_word(data, j));
        let gw = Seq::new(1, |j: int| sixteen_word(g, j));
        assert(g[0] == data[2 * i] && g[1] == data[2 * i + 1]);
        assert(sixteen_word(g, 0) == sixteen_word(data, i));
        crate::codec::twenty::lemma_rgba_pixel(words, i);
        crate::codec::twenty::lemma_rgba_pixel(gw, 0);
        assert(gw[0] == words[i]);
        assert(argb_to_rgba(gw).len() == 4);
        assert(argb_to_rgba(gw).subrange(0, 4) =~= argb_to_rgba(gw));
    }
}

/// A 16-bit stream decodes exactly when it holds the two bytes of every
/// pixel, the last pixel's included.
pub proof fn lemma_sixteen_needs_every_pixel(data: Seq<u8>, width: u32, height: u32)
    requires
        width as int * height as int >= 1,
    ensures
        spec_decode_sixteen(data, width, height) is Ok <==> 2 * (width as int * height as int - 1)
            + 2 <= data.len(),
{
}

} // verus!
