//! 32-bit: four bytes per pixel, plain RGBA.
//!
//! Byte order is `R, G, B, A`, row-major, top-down. The reference hard-codes a
//! 1936-pixel loop (44x44); this decoder reads `width * height` pixels, which is
//! byte-identical on every 44x44 prop and refuses a payload that cannot supply
//! them.

use vstd::prelude::*;

use crate::codec::{fits_in_memory, image_result};
use crate::error::PropError;
use crate::image::{ImageView, PropImage};

verus! {

/// What [`decode`] returns for a 32-bit stream.
pub open spec fn spec_decode_thirtytwo(data: Seq<u8>, width: u32, height: u32) -> Result<
    ImageView,
    PropError,
> {
    let needed = width as int * height as int * 4;
    if data.len() < needed {
        Err(
            PropError::DecompressedTooShort {
                format: "32-bit",
                expected: needed as usize,
                actual: data.len() as usize,
            },
        )
    } else {
        Ok(ImageView { width, height, rgba: data.subrange(0, needed) })
    }
}

/// Decode a 32-bit payload into a `width` x `height` image.
pub fn decode(data: &[u8], width: u32, height: u32) -> (r: Result<PropImage, PropError>)
    requires
        fits_in_memory(width, height),
    ensures
        image_result(r) == spec_decode_thirtytwo(data@, width, height),
        r matches Ok(img) ==> img.wf(),
{
    let pixels = (width as usize) * (height as usize);
    let needed = pixels * 4;
    if data.len() < needed {
        return Err(
            PropError::DecompressedTooShort { format: "32-bit", expected: needed, actual: data.len() },
        );
    }
    let bytes = slice_to_vec(&data[0..needed]);
    let r = PropImage::from_rgba(width, height, bytes);
    assert(r is Ok);
    r
}

/// Copy a slice into a fresh vector.
pub fn slice_to_vec(data: &[u8]) -> (r: Vec<u8>)
    ensures
        r@ == data@,
{
    let mut out: Vec<u8> = Vec::new();
    let mut i: usize = 0;
    while i < data.len()
        invariant
            i <= data@.len(),
            out@ == data@.subrange(0, i as int),
        decreases data@.len() - i,
    {
        out.push(data[i]);
        i = i + 1;
        assert(out@ =~= data@.subrange(0, i as int));
    }
    assert(data@.subrange(0, i as int) =~= data@);
    out
}

} // verus!
