//! 20-bit: 2.5 bytes per pixel, 6-6-6-2, two pixels per five bytes.
//!
//! ```text
//! byte  bits 7..0
//! b0    [7..2] red0[5..0]      [1..0] green0[5..4]
//! b1    [7..4] green0[3..0]    [3..0] blue0[5..2]
//! b2    [7..6] blue0[1..0]     [5..4] alpha0[1..0]   [3..0] red1[5..2]
//! b3    [7..6] red1[1..0]      [5..0] green1[5..0]
//! b4    [7..2] blue1[5..0]     [1..0] alpha1[1..0]
//! ```
//!
//! Colour fields are scaled by `255 / 63`; the two-bit alpha is scaled by 85.

use vstd::prelude::*;

use crate::codec::s20::groups_for;
use crate::codec::{argb, fits_in_memory, image_result, scale, spec_argb, spec_scale};
use crate::error::PropError;
use crate::image::{argb_to_rgba, ImageView, PropImage};

verus! {

/// The packed ARGB word of pixel `i` of a 20-bit stream.
pub open spec fn twenty_word(data: Seq<u8>, i: int) -> u32 {
    let base = (i / 2) * 5;
    let b0 = data[base] as u32;
    let b1 = data[base + 1] as u32;
    let b2 = data[base + 2] as u32;
    let b3 = data[base + 3] as u32;
    let b4 = data[base + 4] as u32;
    if i % 2 == 0 {
        spec_argb(
            ((((((b1 << 8u32) | b2) >> 4u32) & 3u32) * 85) as u8),
            spec_scale(((b0 >> 2u32) & 63u32) as u32, 63),
            spec_scale(((((b0 << 8u32) | b1) >> 4u32) & 63u32) as u32, 63),
            spec_scale(((((b1 << 8u32) | b2) >> 6u32) & 63u32) as u32, 63),
        )
    } else {
        spec_argb(
            (((b4 & 3u32) * 85) as u8),
            spec_scale(((((b2 << 8u32) | b3) >> 6u32) & 63u32) as u32, 63),
            spec_scale((((b2 << 8u32) | b3) & 63u32) as u32, 63),
            spec_scale(((b4 >> 2u32) & 63u32) as u32, 63),
        )
    }
}

/// What [`decode`] returns for a 20-bit stream.
pub open spec fn spec_decode_twenty(data: Seq<u8>, width: u32, height: u32) -> Result<
    ImageView,
    PropError,
> {
    let pixels = width as int * height as int;
    let needed = groups_for(pixels) * 5;
    if data.len() < needed {
        Err(
            PropError::DecompressedTooShort {
                format: "20-bit",
                expected: needed as usize,
                actual: data.len() as usize,
            },
        )
    } else {
        Ok(
            ImageView {
                width,
                height,
                rgba: argb_to_rgba(Seq::new(pixels as nat, |i: int| twenty_word(data, i))),
            },
        )
    }
}

/// Decode pixel `i` of a 20-bit stream.
pub fn twenty_pixel(data: &[u8], i: usize) -> (r: u32)
    requires
        (i / 2) * 5 + 5 <= data@.len(),
    ensures
        r == twenty_word(data@, i as int),
{
    let _len = data.len();
    let base = (i / 2) * 5;
    let b0 = data[base] as u32;
    let b1 = data[base + 1] as u32;
    let b2 = data[base + 2] as u32;
    let b3 = data[base + 3] as u32;
    let b4 = data[base + 4] as u32;
    assert(b0 < 256 && b1 < 256 && b2 < 256 && b3 < 256 && b4 < 256);
    assert(((b0 >> 2u32) & 63u32) <= 63u32) by (bit_vector);
    assert(((((b0 << 8u32) | b1) >> 4u32) & 63u32) <= 63u32) by (bit_vector);
    assert(((((b1 << 8u32) | b2) >> 6u32) & 63u32) <= 63u32) by (bit_vector);
    assert(((((b1 << 8u32) | b2) >> 4u32) & 3u32) <= 3u32) by (bit_vector);
    assert(((((b2 << 8u32) | b3) >> 6u32) & 63u32) <= 63u32) by (bit_vector);
    assert((((b2 << 8u32) | b3) & 63u32) <= 63u32) by (bit_vector);
    assert(((b4 >> 2u32) & 63u32) <= 63u32) by (bit_vector);
    assert((b4 & 3u32) <= 3u32) by (bit_vector);
    if i % 2 == 0 {
        let blue_alpha0 = (b1 << 8u32) | b2;
        argb(
            (((blue_alpha0 >> 4u32) & 3u32) * 85) as u8,
            scale((b0 >> 2u32) & 63u32, 63),
            scale((((b0 << 8u32) | b1) >> 4u32) & 63u32, 63),
            scale((blue_alpha0 >> 6u32) & 63u32, 63),
        )
    } else {
        let red_green1 = (b2 << 8u32) | b3;
        argb(
            ((b4 & 3u32) * 85) as u8,
            scale((red_green1 >> 6u32) & 63u32, 63),
            scale(red_green1 & 63u32, 63),
            scale((b4 >> 2u32) & 63u32, 63),
        )
    }
}

/// Decode a 20-bit payload into a `width` x `height` image.
pub fn decode(data: &[u8], width: u32, height: u32) -> (r: Result<PropImage, PropError>)
    requires
        fits_in_memory(width, height),
    ensures
        image_result(r) == spec_decode_twenty(data@, width, height),
        r matches Ok(img) ==> img.wf(),
{
    let pixels = (width as usize) * (height as usize);
    let needed = (pixels / 2 + pixels % 2) * 5;
    assert(pixels / 2 + pixels % 2 == groups_for(pixels as int));
    if data.len() < needed {
        return Err(
            PropError::DecompressedTooShort { format: "20-bit", expected: needed, actual: data.len() },
        );
    }
    let mut words: Vec<u32> = Vec::new();
    let mut i: usize = 0;
    while i < pixels
        invariant
            i <= pixels,
            pixels == width as int * height as int,
            groups_for(pixels as int) * 5 <= data@.len(),
            words@.len() == i,
            forall|j: int| 0 <= j < i ==> words@[j] == twenty_word(data@, j),
        decreases pixels - i,
    {
        assert((i as int / 2) * 5 + 5 <= groups_for(pixels as int) * 5);
        words.push(twenty_pixel(data, i));
        i = i + 1;
    }
    assert(words@ =~= Seq::new(pixels as nat, |j: int| twenty_word(data@, j)));
    Ok(PropImage::from_argb(width, height, words.as_slice()))
}

/// The RGBA bytes of one pixel of a decoded word sequence.
pub(crate) proof fn lemma_rgba_pixel(words: Seq<u32>, i: int)
    requires
        0 <= i < words.len(),
    ensures
        argb_to_rgba(words).subrange(4 * i, 4 * i + 4) == argb_to_rgba(seq![words[i]]),
{
    let a = argb_to_rgba(words).subrange(4 * i, 4 * i + 4);
    let b = argb_to_rgba(seq![words[i]]);
    assert forall|k: int| 0 <= k < 4 implies a[k] == b[k] by {
        assert((4 * i + k) / 4 == i && (4 * i + k) % 4 == k);
        assert(k / 4 == 0 && k % 4 == k);
    }
    assert(a =~= b);
}

/// Each pixel of a 20-bit image comes from its own five-byte group: pixel
/// `i` decodes exactly as pixel `i % 2` of the two-pixel image made of bytes
/// `5 * (i / 2) .. 5 * (i / 2) + 5` alone, whatever the other bytes hold.
pub proof fn lemma_twenty_pixel_from_its_group(data: Seq<u8>, width: u32, height: u32, i: int)
    requires
        0 <= i < width as int * height as int,
    ensures
        spec_decode_twenty(data, width, height) matches Ok(img) ==> (spec_decode_twenty(
            data.subrange(5 * (i / 2), 5 * (i / 2) + 5),
            2,
            1,
        ) matches Ok(one) && img.rgba.subrange(4 * i, 4 * i + 4) == one.rgba.subrange(
            4 * (i % 2),
            4 * (i % 2) + 4,
        )),
{
    let n = width as int * height as int;
    if data.len() >= groups_for(n) * 5 {
        let base = 5 * (i / 2);
        assert(i / 2 < groups_for(n));
        assert(base + 5 <= groups_for(n) * 5) by (nonlinear_arith)
            requires
                base == 5 * (i / 2),
                i / 2 < groups_for(n),
        ;
        let g = data.subrange(base, base + 5);
        assert(groups_for(2) == 1);
        assert(g.len() == 5);
        let words = Seq::new(n as nat, |j: int| twenty_word(data, j));
        let gw = Seq::new(2, |j: int| twenty_word(g, j));
        assert(g[0] == data[base] && g[1] == data[base + 1] && g[2] == data[base + 2] && g[3]
            == data[base + 3] && g[4] == data[base + 4]);
        assert(twenty_word(g, i % 2) == twenty_word(data, i));
        lemma_rgba_pixel(words, i);
        lemma_rgba_pixel(gw, i % 2);
        assert(words[i] == gw[i % 2]);
    }
}

/// A 20-bit stream decodes exactly when it holds the whole five-byte group
/// of every pixel, the last pixel's group included.
pub proof fn lemma_twenty_needs_every_group(data: Seq<u8>, width: u32, height: u32)
    requires
        width as int * height as int >= 1,
    ensures
        spec_decode_twenty(data, width, height) is Ok <==> 5 * ((width as int * height as int - 1) / 2) + 5
            <= data.len(),
{
    let n = width as int * height as int;
    assert(groups_for(n) == (n - 1) / 2 + 1);
}

} // verus!
