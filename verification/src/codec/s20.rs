//! S20-bit: 2.5 bytes per pixel, 5-5-5-5, two pixels per five bytes.
//!
//! The 40 bits of a five-byte group:
//!
//! ```text
//! b0  [7..3] red0            [2..0] green0 (high 3)
//! b1  [7..6] green0 (low 2)  [5..1] blue0        [0] alpha0 bit 4
//! b2  [7..4] alpha0 (low 4)  [3..0] red1 (high 4)
//! b3  [7]    red1 bit 0      [6..2] green1       [1..0] blue1 (high 2)
//! b4  [7..5] blue1 (low 3)   [4..0] alpha1
//! ```
//!
//! Colours and alpha are all scaled by `255 / 31`.

use vstd::prelude::*;

use crate::codec::{argb, fits_in_memory, image_result, scale, spec_argb, spec_scale};
use crate::error::PropError;
use crate::image::{argb_to_rgba, ImageView, PropImage};

verus! {

/// Number of five-byte groups needed for `pixels` pixels.
pub open spec fn groups_for(pixels: int) -> int {
    (pixels + 1) / 2
}

/// The packed ARGB word of pixel `i` of an S20 stream.
pub open spec fn s20_word(data: Seq<u8>, i: int) -> u32 {
    let base = (i / 2) * 5;
    let b0 = data[base] as u32;
    let b1 = data[base + 1] as u32;
    let b2 = data[base + 2] as u32;
    let b3 = data[base + 3] as u32;
    let b4 = data[base + 4] as u32;
    if i % 2 == 0 {
        spec_argb(
            spec_scale(((((b1 << 8u32) | b2) >> 4u32) & 31u32) as u32, 31),
            spec_scale(((b0 >> 3u32) & 31u32) as u32, 31),
            spec_scale(((((b0 << 8u32) | b1) >> 6u32) & 31u32) as u32, 31),
            spec_scale(((((b0 << 8u32) | b1) >> 1u32) & 31u32) as u32, 31),
        )
    } else {
        spec_argb(
            spec_scale((((b3 << 8u32) | b4) & 31u32) as u32, 31),
            spec_scale(((((b2 << 8u32) | b3) >> 7u32) & 31u32) as u32, 31),
            spec_scale(((((b2 << 8u32) | b3) >> 2u32) & 31u32) as u32, 31),
            spec_scale(((((b3 << 8u32) | b4) >> 5u32) & 31u32) as u32, 31),
        )
    }
}

/// What [`decode`] returns: an error when the stream is shorter than
/// `ceil(pixels / 2) * 5` bytes, otherwise one word per pixel.
pub open spec fn spec_decode_s20(data: Seq<u8>, width: u32, height: u32) -> Result<
    ImageView,
    PropError,
> {
    let pixels = width as int * height as int;
    let needed = groups_for(pixels) * 5;
    if data.len() < needed {
        Err(
            PropError::DecompressedTooShort {
                format: "s20-bit",
                expected: needed as usize,
                actual: data.len() as usize,
            },
        )
    } else {
        Ok(
            ImageView {
                width,
                height,
                rgba: argb_to_rgba(Seq::new(pixels as nat, |i: int| s20_word(data, i))),
            },
        )
    }
}

/// Decode pixel `i` of an S20 stream.
pub fn s20_pixel(data: &[u8], i: usize) -> (r: u32)
    requires
        (i / 2) * 5 + 5 <= data@.len(),
    ensures
        r == s20_word(data@, i as int),
{
    let _len = data.len();
    let base = (i / 2) * 5;
    let b0 = data[base] as u32;
    let b1 = data[base + 1] as u32;
    let b2 = data[base + 2] as u32;
    let b3 = data[base + 3] as u32;
    let b4 = data[base + 4] as u32;
    assert(b0 < 256 && b1 < 256 && b2 < 256 && b3 < 256 && b4 < 256);
    assert(((((b1 << 8u32) | b2) >> 4u32) & 31u32) <= 31u32) by (bit_vector);
    assert(((b0 >> 3u32) & 31u32) <= 31u32) by (bit_vector);
    assert(((((b0 << 8u32) | b1) >> 6u32) & 31u32) <= 31u32) by (bit_vector);
    assert(((((b0 << 8u32) | b1) >> 1u32) & 31u32) <= 31u32) by (bit_vector);
    assert((((b3 << 8u32) | b4) & 31u32) <= 31u32) by (bit_vector);
    assert(((((b2 << 8u32) | b3) >> 7u32) & 31u32) <= 31u32) by (bit_vector);
    assert(((((b2 << 8u32) | b3) >> 2u32) & 31u32) <= 31u32) by (bit_vector);
    assert(((((b3 << 8u32) | b4) >> 5u32) & 31u32) <= 31u32) by (bit_vector);
    if i % 2 == 0 {
        argb(
            scale((((b1 << 8u32) | b2) >> 4u32) & 31u32, 31),
            scale((b0 >> 3u32) & 31u32, 31),
            scale((((b0 << 8u32) | b1) >> 6u32) & 31u32, 31),
            scale((((b0 << 8u32) | b1) >> 1u32) & 31u32, 31),
        )
    } else {
        argb(
            scale(((b3 << 8u32) | b4) & 31u32, 31),
            scale((((b2 << 8u32) | b3) >> 7u32) & 31u32, 31),
            scale((((b2 << 8u32) | b3) >> 2u32) & 31u32, 31),
            scale((((b3 << 8u32) | b4) >> 5u32) & 31u32, 31),
        )
    }
}

/// Decode an S20-bit payload into a `width` x `height` image.
pub fn decode(data: &[u8], width: u32, height: u32) -> (r: Result<PropImage, PropError>)
    requires
        fits_in_memory(width, height),
    ensures
        image_result(r) == spec_decode_s20(data@, width, height),
        r matches Ok(img) ==> img.wf(),
{
    let pixels = (width as usize) * (height as usize);
    let needed = (pixels / 2 + pixels % 2) * 5;
    assert(pixels / 2 + pixels % 2 == groups_for(pixels as int));
    if data.len() < needed {
        return Err(
            PropError::DecompressedTooShort {
                format: "s20-bit",
                expected: needed,
                actual: data.len(),
            },
        );
    }
    let mut words: Vec<u32> = Vec::new();
    let mut i: usize = 0;
    while i < pixels
        invariant
            i <= pixels,
            pixels == width as int * height as int,
            groups_for(pixels as int) * 5 <= data@.len(),
            words@.len() == i,
            forall|j: int| 0 <= j < i ==> words@[j] == s20_word(data@, j),
        decreases pixels - i,
    {
        assert((i as int / 2) * 5 + 5 <= groups_for(pixels as int) * 5);
        words.push(s20_pixel(data, i));
        i = i + 1;
    }
    assert(words@ =~= Seq::new(pixels as nat, |j: int| s20_word(data@, j)));
    Ok(PropImage::from_argb(width, height, words.as_slice()))
}

/// Each pixel of an S20 image comes from its own five-byte group: pixel `i`
/// decodes exactly as pixel `i % 2` of the two-pixel image made of bytes
/// `5 * (i / 2) .. 5 * (i / 2) + 5` alone, whatever the other bytes hold.
pub proof fn lemma_s20_pixel_from_its_group(data: Seq<u8>, width: u32, height: u32, i: int)
    requires
        0 <= i < width as int * height as int,
    ensures
        spec_decode_s20(data, width, height) matches Ok(img) ==> (spec_decode_s20(
            data.subrange(5 * (i / 2), 5 * (i / 2) + 5),
            2,
            1,
        ) matches Ok(one) && img.rgba.subrange(4 * i, 4 * i + 4) == one.rgba.subrange(
            4 * (i % 2),
            4 * (i % 2) + 4,
        )),
{
    let n = width as int * height as int;
    if data.len() >= groups_for(n) * 5 {
        let base = 5 * (i / 2);
        assert(i / 2 < groups_for(n));
        assert(base + 5 <= groups_for(n) * 5) by (nonlinear_arith)
            requires
                base == 5 * (i / 2),
                i / 2 < groups_for(n),
        ;
        let g = data.subrange(base, base + 5);
        assert(groups_for(2) == 1);
        let words = Seq::new(n as nat, |j: int| s20_word(data, j));
        let gw = Seq::new(2, |j: int| s20_word(g, j));
        assert(g[0] == data[base] && g[1] == data[base + 1] && g[2] == data[base + 2] && g[3]
            == data[base + 3] && g[4] == data[base + 4]);
        assert(s20_word(g, i % 2) == s20_word(data, i));
        crate::codec::twenty::lemma_rgba_pixel(words, i);
        crate::codec::twenty::lemma_rgba_pixel(gw, i % 2);
        assert(words[i] == gw[i % 2]);
    }
}

/// A S20 stream decodes exactly when it holds the whole five-byte group
/// of every pixel, the last pixel's group included.
pub proof fn lemma_s20_needs_every_group(data: Seq<u8>, width: u32, height: u32)
    requires
        width as int * height as int >= 1,
    ensures
        spec_decode_s20(data, width, height) is Ok <==> 5 * ((width as int * height as int - 1) / 2) + 5
            <= data.len(),
{
    let n = width as int * height as int;
    assert(groups_for(n) == (n - 1) / 2 + 1);
}

} // verus!
