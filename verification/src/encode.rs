//! The S20-bit encoder — the only format the reference client emits.
//!
//! The bit packing is kept identical to the reference, including its two
//! oddities: pixel 0's alpha is written as two fragments (its top bit into the
//! group's second byte, its low four bits into the third byte), and the
//! intermediate word is masked down to `0xF0` between the two pixels.
//!
//! This is the exact inverse of [`crate::codec::s20::decode`] on quantised
//! colours. Colours are quantised with `round(channel * 31 / 255)`.

use vstd::prelude::*;

use crate::codec::s20::s20_word;
use crate::codec::{spec_argb, spec_scale};
use crate::error::PropError;
use crate::header::{
    spec_encode_header, PropEndian, PropHeader, FLAG_FORMAT_S20BIT, FORMAT_MASK,
};
use crate::image::{argb_channel, argb_to_rgba, ImageView, PropImage};
use crate::zlib::{zlib_compress, zlib_deflate};

verus! {

/// `round(channel * 31 / 255)`: the nearest 5-bit level. No channel value lies
/// exactly half-way between two levels, so no tie rule is needed.
pub open spec fn spec_quantize(channel: u8) -> u32 {
    ((channel as int * 31 + 127) / 255) as u32
}

/// Quantise one 8-bit channel to 5 bits.
pub fn quantize(channel: u8) -> (r: u32)
    ensures
        r == spec_quantize(channel),
        r <= 31,
{
    ((channel as u32) * 31 + 127) / 255
}

/// The quantised 5-bit level of channel `c` of pixel `i`.
pub open spec fn q(rgba: Seq<u8>, i: int, c: int) -> u32 {
    spec_quantize(rgba[i * 4 + c])
}

/// The first intermediate word of the group holding pixels `2k` and `2k + 1`.
pub open spec fn group_word0(rgba: Seq<u8>, k: int) -> u32 {
    let i = 2 * k;
    ((q(rgba, i, 0) << 19u32) | (q(rgba, i, 1) << 14u32) | (q(rgba, i, 2) << 9u32) | (q(
        rgba,
        i,
        3,
    ) << 4u32)) as u32
}

/// The second intermediate word of the group holding pixels `2k` and `2k + 1`.
pub open spec fn group_word1(rgba: Seq<u8>, k: int) -> u32 {
    let i = 2 * k + 1;
    ((((group_word0(rgba, k) & 0xF0u32) << 16u32) | (q(rgba, i, 0) << 15u32) | (q(rgba, i, 1)
        << 10u32) | (q(rgba, i, 2) << 5u32) | q(rgba, i, 3))) as u32
}

/// Byte `b` of the five-byte group `k`.
pub open spec fn group_byte(rgba: Seq<u8>, k: int, b: int) -> u8 {
    if b == 0 {
        ((group_word0(rgba, k) >> 16u32) & 0xFFu32) as u8
    } else if b == 1 {
        ((group_word0(rgba, k) >> 8u32) & 0xFFu32) as u8
    } else if b == 2 {
        ((group_word1(rgba, k) >> 16u32) & 0xFFu32) as u8
    } else if b == 3 {
        ((group_word1(rgba, k) >> 8u32) & 0xFFu32) as u8
    } else {
        (group_word1(rgba, k) & 0xFFu32) as u8
    }
}

/// The uncompressed S20 stream of an RGBA buffer: five bytes per pixel pair.
pub open spec fn s20_raw(rgba: Seq<u8>) -> Seq<u8> {
    Seq::new(((rgba.len() / 8) * 5) as nat, |j: int| group_byte(rgba, j / 5, j % 5))
}

/// Whether an image can be S20-encoded: non-empty with an even width.
pub open spec fn s20_encodable(width: u32, height: u32) -> bool {
    width != 0 && height != 0 && width % 2 == 0
}

/// Each channel of an image after an S20 round trip: quantised to 5 bits and
/// scaled back to 8.
pub open spec fn quantised_rgba(rgba: Seq<u8>) -> Seq<u8> {
    Seq::new(rgba.len(), |i: int| spec_scale(spec_quantize(rgba[i]), 31))
}

/// The decoder's field extractions undo the encoder's packing of eight 5-bit
/// levels into five bytes.
pub proof fn lemma_s20_group_fields(
    q0: u32,
    q1: u32,
    q2: u32,
    q3: u32,
    q4: u32,
    q5: u32,
    q6: u32,
    q7: u32,
)
    requires
        q0 <= 31 && q1 <= 31 && q2 <= 31 && q3 <= 31,
        q4 <= 31 && q5 <= 31 && q6 <= 31 && q7 <= 31,
    ensures
        ({
            let w0 = (q0 << 19u32) | (q1 << 14u32) | (q2 << 9u32) | (q3 << 4u32);
            let w1 = ((w0 & 0xF0u32) << 16u32) | (q4 << 15u32) | (q5 << 10u32) | (q6 << 5u32) | q7;
            let b0 = ((w0 >> 16u32) & 0xFFu32) as u8 as u32;
            let b1 = ((w0 >> 8u32) & 0xFFu32) as u8 as u32;
            let b2 = ((w1 >> 16u32) & 0xFFu32) as u8 as u32;
            let b3 = ((w1 >> 8u32) & 0xFFu32) as u8 as u32;
            let b4 = (w1 & 0xFFu32) as u8 as u32;
            &&& ((b0 >> 3u32) & 31u32) == q0
            &&& ((((b0 << 8u32) | b1) >> 6u32) & 31u32) == q1
            &&& ((((b0 << 8u32) | b1) >> 1u32) & 31u32) == q2
            &&& ((((b1 << 8u32) | b2) >> 4u32) & 31u32) == q3
            &&& ((((b2 << 8u32) | b3) >> 7u32) & 31u32) == q4
            &&& ((((b2 << 8u32) | b3) >> 2u32) & 31u32) == q5
            &&& ((((b3 << 8u32) | b4) >> 5u32) & 31u32) == q6
            &&& (((b3 << 8u32) | b4) & 31u32) == q7
        }),
{
    assert({
        let w0 = (q0 << 19u32) | (q1 << 14u32) | (q2 << 9u32) | (q3 << 4u32);
        let w1 = ((w0 & 0xF0u32) << 16u32) | (q4 << 15u32) | (q5 << 10u32) | (q6 << 5u32) | q7;
        let b0 = ((w0 >> 16u32) & 0xFFu32) as u8 as u32;
        let b1 = ((w0 >> 8u32) & 0xFFu32) as u8 as u32;
        let b2 = ((w1 >> 16u32) & 0xFFu32) as u8 as u32;
        let b3 = ((w1 >> 8u32) & 0xFFu32) as u8 as u32;
        let b4 = (w1 & 0xFFu32) as u8 as u32;
        &&& ((b0 >> 3u32) & 31u32) == q0
        &&& ((((b0 << 8u32) | b1) >> 6u32) & 31u32) == q1
        &&& ((((b0 << 8u32) | b1) >> 1u32) & 31u32) == q2
        &&& ((((b1 << 8u32) | b2) >> 4u32) & 31u32) == q3
        &&& ((((b2 << 8u32) | b3) >> 7u32) & 31u32) == q4
        &&& ((((b2 << 8u32) | b3) >> 2u32) & 31u32) == q5
        &&& ((((b3 << 8u32) | b4) >> 5u32) & 31u32) == q6
        &&& (((b3 << 8u32) | b4) & 31u32) == q7
    }) by (bit_vector)
        requires
            q0 <= 31 && q1 <= 31 && q2 <= 31 && q3 <= 31,
            q4 <= 31 && q5 <= 31 && q6 <= 31 && q7 <= 31,
    ;
}

/// The channels of a packed ARGB word are the four values packed.
pub proof fn lemma_argb_channels(a: u8, r: u8, g: u8, b: u8)
    ensures
        argb_channel(spec_argb(a, r, g, b), 0) == r,
        argb_channel(spec_argb(a, r, g, b), 1) == g,
        argb_channel(spec_argb(a, r, g, b), 2) == b,
        argb_channel(spec_argb(a, r, g, b), 3) == a,
{
    assert(((((a as u32) << 24u32) | ((r as u32) << 16u32) | ((g as u32) << 8u32) | (b as u32))
        >> 16u32) as u8 == r) by (bit_vector);
    assert(((((a as u32) << 24u32) | ((r as u32) << 16u32) | ((g as u32) << 8u32) | (b as u32))
        >> 8u32) as u8 == g) by (bit_vector);
    assert((((a as u32) << 24u32) | ((r as u32) << 16u32) | ((g as u32) << 8u32) | (b as u32))
        as u8 == b) by (bit_vector);
    assert(((((a as u32) << 24u32) | ((r as u32) << 16u32) | ((g as u32) << 8u32) | (b as u32))
        >> 24u32) as u8 == a) by (bit_vector);
}

/// Every pixel the S20 decoder reads back from the encoder's stream is the
/// quantised colour of the pixel encoded.
pub proof fn lemma_s20_raw_decodes(rgba: Seq<u8>, pixels: int)
    requires
        rgba.len() == pixels * 4,
        pixels % 2 == 0,
        pixels >= 0,
    ensures
        argb_to_rgba(Seq::new(pixels as nat, |i: int| s20_word(s20_raw(rgba), i)))
            == quantised_rgba(rgba),
{
    let raw = s20_raw(rgba);
    let words = Seq::new(pixels as nat, |i: int| s20_word(raw, i));
    assert(rgba.len() / 8 == pixels / 2);
    assert forall|i: int| 0 <= i < pixels implies #[trigger] words[i] == spec_argb(
        spec_scale(q(rgba, i, 3), 31),
        spec_scale(q(rgba, i, 0), 31),
        spec_scale(q(rgba, i, 1), 31),
        spec_scale(q(rgba, i, 2), 31),
    ) by {
        let k = i / 2;
        let base = k * 5;
        assert(base + 5 <= raw.len()) by (nonlinear_arith)
            requires
                0 <= i < pixels,
                k == i / 2,
                base == k * 5,
                raw.len() == (pixels / 2) * 5,
                pixels % 2 == 0,
        ;
        assert forall|t: int| 0 <= t < 5 implies raw[base + t] == group_byte(rgba, k, t) by {
            assert((base + t) / 5 == k);
            assert((base + t) % 5 == t);
        }
        assert(2 * k + 1 < pixels);
        let i0 = 2 * k;
        let i1 = 2 * k + 1;
        assert forall|c: int| 0 <= c < 4 implies q(rgba, i0, c) <= 31 && q(rgba, i1, c) <= 31 by {
        }
        lemma_s20_group_fields(
            q(rgba, i0, 0),
            q(rgba, i0, 1),
            q(rgba, i0, 2),
            q(rgba, i0, 3),
            q(rgba, i1, 0),
            q(rgba, i1, 1),
            q(rgba, i1, 2),
            q(rgba, i1, 3),
        );
        assert(raw[base] == group_byte(rgba, k, 0));
        assert(raw[base + 1] == group_byte(rgba, k, 1));
        assert(raw[base + 2] == group_byte(rgba, k, 2));
        assert(raw[base + 3] == group_byte(rgba, k, 3));
        assert(raw[base + 4] == group_byte(rgba, k, 4));
        if i % 2 == 0 {
            assert(i == i0);
        } else {
            assert(i == i1);
        }
    }
    let out = argb_to_rgba(words);
    let want = quantised_rgba(rgba);
    assert forall|j: int| 0 <= j < out.len() implies out[j] == want[j] by {
        let i = j / 4;
        let c = j % 4;
        assert(0 <= i < pixels);
        assert(j == i * 4 + c);
        lemma_argb_channels(
            spec_scale(q(rgba, i, 3), 31),
            spec_scale(q(rgba, i, 0), 31),
            spec_scale(q(rgba, i, 1), 31),
            spec_scale(q(rgba, i, 2), 31),
        );
        assert(words[i] == spec_argb(
            spec_scale(q(rgba, i, 3), 31),
            spec_scale(q(rgba, i, 0), 31),
            spec_scale(q(rgba, i, 1), 31),
            spec_scale(q(rgba, i, 2), 31),
        ));
    }
    assert(out =~= want);
}

/// Encode one five-byte group: pixels `2k` and `2k + 1` of `pixels`.
fn encode_group(pixels: &[u8], k: usize, out: &mut Vec<u8>)
    requires
        (2 * k + 2) * 4 <= pixels@.len(),
    ensures
        final(out)@ == old(out)@ + seq![
            group_byte(pixels@, k as int, 0),
            group_byte(pixels@, k as int, 1),
            group_byte(pixels@, k as int, 2),
            group_byte(pixels@, k as int, 3),
            group_byte(pixels@, k as int, 4),
        ],
{
    let _len = pixels.len();
    let i = 2 * k;
    let j = i + 1;
    let mut int_comp: u32 = (quantize(pixels[i * 4]) << 19u32) | (quantize(pixels[i * 4 + 1])
        << 14u32) | (quantize(pixels[i * 4 + 2]) << 9u32) | (quantize(pixels[i * 4 + 3])
        << 4u32);
    out.push(((int_comp >> 16u32) & 0xFFu32) as u8);
    out.push(((int_comp >> 8u32) & 0xFFu32) as u8);
    int_comp = (int_comp & 0xF0u32) << 16u32;
    int_comp = int_comp | (quantize(pixels[j * 4]) << 15u32) | (quantize(pixels[j * 4 + 1])
        << 10u32) | (quantize(pixels[j * 4 + 2]) << 5u32) | quantize(pixels[j * 4 + 3]);
    out.push(((int_comp >> 16u32) & 0xFFu32) as u8);
    out.push(((int_comp >> 8u32) & 0xFFu32) as u8);
    out.push((int_comp & 0xFFu32) as u8);
}

/// The uncompressed S20 stream of an image with an even pixel count.
pub fn s20_raw_stream(image: &PropImage) -> (r: Vec<u8>)
    requires
        image.wf(),
        (image@.width as int * image@.height as int) % 2 == 0,
    ensures
        r@ == s20_raw(image@.rgba),
{
    let pixels = image.as_rgba();
    let len = pixels.len();
    let groups = len / 8;
    let mut out: Vec<u8> = Vec::new();
    let mut k: usize = 0;
    while k < groups
        invariant
            len == pixels@.len(),
            pixels@ == image@.rgba,
            groups == len / 8,
            k <= groups,
            out@.len() == k * 5,
            forall|j: int| 0 <= j < k * 5 ==> out@[j] == group_byte(pixels@, j / 5, j % 5),
        decreases groups - k,
    {
        let ghost before = out@;
        encode_group(pixels, k, &mut out);
        assert forall|j: int| 0 <= j < (k + 1) * 5 implies out@[j] == group_byte(
            pixels@,
            j / 5,
            j % 5,
        ) by {
            if j >= k * 5 {
                assert(j / 5 == k);
            }
        }
        k = k + 1;
    }
    assert(out@ =~= s20_raw(pixels@));
    out
}

/// Encode an image to the compressed S20 pixel payload (no header).
///
/// The image must have an even width, because the format packs pixels in pairs.
pub fn encode_s20_payload(image: &PropImage) -> (r: Result<Vec<u8>, PropError>)
    requires
        image.wf(),
    ensures
        !s20_encodable(image@.width, image@.height) ==> r == Err::<Vec<u8>, PropError>(
            PropError::UnencodableImage { width: image@.width, height: image@.height },
        ),
        s20_encodable(image@.width, image@.height) ==> match zlib_deflate(s20_raw(image@.rgba)) {
            Some(z) => r matches Ok(v) && v@ == z,
            None => r matches Err(PropError::Zlib { .. }),
        },
        r matches Ok(v) ==> (forall|limit: nat|
            limit > s20_raw(image@.rgba).len() ==> crate::zlib::zlib_inflate_limited(v@, limit)
                == Some(s20_raw(image@.rgba))),
{
    let width = image.width();
    let height = image.height();
    if width == 0 || height == 0 || width % 2 != 0 {
        return Err(PropError::UnencodableImage { width, height });
    }
    proof {
        let half = width as int / 2;
        assert(width as int == 2 * half);
        assert(width as int * height as int == 2 * (half * height as int)) by (nonlinear_arith)
            requires
                width as int == 2 * half,
        ;
    }
    let raw = s20_raw_stream(image);
    match zlib_compress(raw.as_slice()) {
        Ok(v) => Ok(v),
        Err(detail) => Err(PropError::Zlib { detail }),
    }
}

/// The header [`encode_s20_blob`] writes for an image.
pub open spec fn s20_blob_header(width: u32, height: u32, h_offset: i16, v_offset: i16, base_flags: u16) -> PropHeader {
    PropHeader {
        width: width as i16,
        height: height as i16,
        h_offset,
        v_offset,
        script_offset: 0,
        flags: (base_flags & !FORMAT_MASK) | FLAG_FORMAT_S20BIT,
        endian: PropEndian::Little,
    }
}

/// Whether an image is one an S20 blob round-trips through [`crate::decode`]:
/// an even width small enough for the little-endian byte-order sniff (whose
/// high byte must be zero) and a height the header check accepts.
pub open spec fn s20_round_trips(width: u32, height: u32) -> bool {
    2 <= width < 256 && width % 2 == 0 && 1 <= height <= 4096
}

/// What [`encode_s20_blob`] promises of its result `r`: the error cases, the
/// bytes of a success, and that a success decodes back to the image with every
/// channel quantised.
pub open spec fn s20_blob_outcome(
    image: ImageView,
    h_offset: i16,
    v_offset: i16,
    base_flags: u16,
    r: Result<Vec<u8>, PropError>,
) -> bool {
    let header = s20_blob_header(image.width, image.height, h_offset, v_offset, base_flags);
    &&& (image.width > 32767 || image.height > 32767) ==> r == Err::<Vec<u8>, PropError>(
        PropError::UnencodableImage { width: image.width, height: image.height },
    )
    &&& (image.width <= 32767 && image.height <= 32767 && !s20_encodable(image.width, image.height))
        ==> r == Err::<Vec<u8>, PropError>(
        PropError::UnencodableImage { width: image.width, height: image.height },
    )
    &&& (image.width <= 32767 && image.height <= 32767 && s20_encodable(image.width, image.height))
        ==> match zlib_deflate(s20_raw(image.rgba)) {
        Some(z) => r matches Ok(v) && v@ == spec_encode_header(header) + z,
        None => r matches Err(PropError::Zlib { .. }),
    }
    &&& (r matches Ok(v) && s20_round_trips(image.width, image.height)) ==> crate::spec_decode(
        r->Ok_0@,
    ) == Some(
        Ok::<crate::PropView, PropError>(
            crate::PropView {
                header,
                image: ImageView {
                    width: image.width,
                    height: image.height,
                    rgba: quantised_rgba(image.rgba),
                },
            },
        ),
    )
}

/// The flag word an S20 blob is written with selects S20.
pub proof fn lemma_s20_flags_select_s20(base_flags: u16)
    ensures
        crate::header::spec_format((base_flags & !FORMAT_MASK) | FLAG_FORMAT_S20BIT)
            == crate::header::PropFormat::S20Bit,
{
    let f = (base_flags & !0x0340u16) | 0x0200u16;
    assert(f & 0xFFC1u16 != 0xFF80u16) by (bit_vector)
        requires
            f == (base_flags & !0x0340u16) | 0x0200u16,
    ;
    assert(f & 0x0200u16 != 0) by (bit_vector)
        requires
            f == (base_flags & !0x0340u16) | 0x0200u16,
    ;
}

/// A blob made of an S20 header and a stream that inflates to the image's raw
/// S20 bytes decodes to the quantised image.
pub proof fn lemma_s20_blob_round_trip(
    image: ImageView,
    h_offset: i16,
    v_offset: i16,
    base_flags: u16,
    blob: Seq<u8>,
)
    requires
        image.rgba.len() == image.width as int * image.height as int * 4,
        s20_round_trips(image.width, image.height),
        blob.len() >= 12,
        blob.subrange(0, 12) == spec_encode_header(
            s20_blob_header(image.width, image.height, h_offset, v_offset, base_flags),
        ),
        forall|limit: nat|
            limit > s20_raw(image.rgba).len() ==> crate::zlib::zlib_inflate_limited(
                blob.subrange(12, blob.len() as int),
                limit,
            ) == Some(s20_raw(image.rgba)),
    ensures
        crate::spec_decode(blob) == Some(
            Ok::<crate::PropView, PropError>(
                crate::PropView {
                    header: s20_blob_header(
                        image.width,
                        image.height,
                        h_offset,
                        v_offset,
                        base_flags,
                    ),
                    image: ImageView {
                        width: image.width,
                        height: image.height,
                        rgba: quantised_rgba(image.rgba),
                    },
                },
            ),
        ),
{
    let w = image.width;
    let h = image.height;
    let header = s20_blob_header(w, h, h_offset, v_offset, base_flags);
    let prefix = blob.subrange(0, 12);
    assert((w as i16) as int == w as int);
    assert((h as i16) as int == h as int);
    crate::header::lemma_header_encode_parse_round_trip(header);
    assert(crate::header::header_fields(blob, header.endian) == crate::header::header_fields(
        prefix,
        header.endian,
    ));
    assert(crate::header::sniffed(blob) == crate::header::sniffed(prefix));
    assert(crate::header::spec_parse_header(blob) == Ok::<PropHeader, PropError>(header));
    lemma_s20_flags_select_s20(base_flags);
    let p = w as int * h as int;
    assert(0 <= p <= 255 * 4096) by (nonlinear_arith)
        requires
            p == w as int * h as int,
            2 <= w < 256,
            1 <= h <= 4096,
    ;
    let half = w as int / 2;
    assert(p == 2 * (half * h as int)) by (nonlinear_arith)
        requires
            p == w as int * h as int,
            w as int == 2 * half,
    ;
    let raw = s20_raw(image.rgba);
    let needed = crate::header::spec_payload_bytes_for(crate::header::PropFormat::S20Bit, p);
    assert(needed == (p / 2) * 5);
    assert(raw.len() == needed);
    let payload = blob.subrange(12, blob.len() as int);
    assert(crate::codec::inflate_limit(needed) > raw.len());
    assert(crate::zlib::zlib_inflate_limited(payload, crate::codec::inflate_limit(needed)) == Some(
        raw,
    ));
    assert(crate::codec::abs_dim(w as i16) == w);
    assert(crate::codec::abs_dim(h as i16) == h);
    lemma_s20_raw_decodes(image.rgba, p);
}

/// Encode an image into a complete little-endian S20 prop blob: header +
/// payload.
///
/// `base_flags` carries the head/ghost/rare/animate/bounce bits; the format bits
/// are replaced with `S20BIT`. The offsets are written unchanged.
pub fn encode_s20_blob(image: &PropImage, h_offset: i16, v_offset: i16, base_flags: u16) -> (r:
    Result<Vec<u8>, PropError>)
    requires
        image.wf(),
    ensures
        s20_blob_outcome(image@, h_offset, v_offset, base_flags, r),
{
    let width = image.width();
    let height = image.height();
    if width > 32767 || height > 32767 {
        return Err(PropError::UnencodableImage { width, height });
    }
    let header = PropHeader {
        width: width as i16,
        height: height as i16,
        h_offset,
        v_offset,
        script_offset: 0,
        flags: (base_flags & !FORMAT_MASK) | FLAG_FORMAT_S20BIT,
        endian: PropEndian::Little,
    };
    let bytes = header.encode();
    let payload = match encode_s20_payload(image) {
        Ok(p) => p,
        Err(e) => {
            return Err(e);
        },
    };
    let mut blob: Vec<u8> = Vec::new();
    let mut i: usize = 0;
    while i < 12
        invariant
            i <= 12,
            blob@ == bytes@.subrange(0, i as int),
        decreases 12 - i,
    {
        blob.push(bytes[i]);
        i = i + 1;
        assert(blob@ =~= bytes@.subrange(0, i as int));
    }
    let ghost head = blob@;
    let mut j: usize = 0;
    while j < payload.len()
        invariant
            j <= payload@.len(),
            head.len() == 12,
            blob@ == head + payload@.subrange(0, j as int),
        decreases payload@.len() - j,
    {
        blob.push(payload[j]);
        j = j + 1;
        assert(blob@ =~= head + payload@.subrange(0, j as int));
    }
    assert(payload@.subrange(0, j as int) =~= payload@);
    assert(blob@.subrange(12, blob@.len() as int) =~= payload@);
    assert(head =~= bytes@);
    proof {
        if s20_round_trips(width, height) {
            assert(blob@.subrange(0, 12) =~= bytes@);
            lemma_s20_blob_round_trip(image@, h_offset, v_offset, base_flags, blob@);
        }
    }
    Ok(blob)
}

} // verus!
