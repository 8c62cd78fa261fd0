//! The modern client's "big prop" container: the records [`crate::decode`]
//! rejects, whose header sets flag bit `0x0400` and/or `0x0800`.
//!
//! ```text
//! offset  size   field
//! 0       12     ordinary prop header: 44x44, flags 0x0400 (+ 0x0800 for WebP)
//! 12      4840   a 44x44 raw, uncompressed S20 base image
//! 4852    4      u32, header byte order: length L of the embedded image file
//! 4856    12     big-image descriptor: imgW, imgH, xOff, yOff, reserved, flags
//! 4868    L      the embedded image file: a static PNG, or an animated WebP
//!                when flags & 0x0800
//! ```
//!
//! Decoding keeps the raw base image and the undetermined descriptor field, so
//! re-encoding a decoded blob gives back its bytes.

use vstd::prelude::*;

use crate::codec::image_result;
use crate::codec::s20::spec_decode_s20;
use crate::error::{spec_message, PropError};
use crate::header::{
    spec_encode_header, spec_parse_header, spec_word, spec_word_bytes, word_bytes, PropEndian,
    PropHeader, HEADER_LEN,
};
use crate::image::{ImageView, PropImage};
use crate::prp::read::le_u32;
use crate::prp::write::u32_le;
use crate::text::{push_char, push_decimal, push_str, spec_decimal};

verus! {

/// Flag marking a prop as using the big-image container.
pub const FLAG_BIG_IMAGE: u16 = 0x0400;

/// Flag marking the embedded image as animated WebP rather than static PNG.
pub const FLAG_WEBP: u16 = 0x0800;

/// Both container bits.
pub const BIG_FLAG_MASK: u16 = 0x0C00;

/// Side of the base image in pixels.
pub const BASE_SIDE: u32 = 44;

/// Bytes of raw S20 base image (44x44 pixels at 2.5 bytes each).
pub const BASE_IMAGE_LEN: usize = 4840;

/// Offset of the base image, right after the 12-byte header.
pub const BASE_IMAGE_OFFSET: usize = 12;

/// Offset of the u32 embedded-image length.
pub const IMAGE_LEN_OFFSET: usize = 4852;

/// Offset of the 12-byte big-image descriptor.
pub const DESCRIPTOR_OFFSET: usize = 4856;

/// Length of the big-image descriptor.
pub const DESCRIPTOR_LEN: usize = 12;

/// Offset of the embedded image file.
pub const IMAGE_OFFSET: usize = 4868;

/// Why a big prop could not be decoded.
#[derive(Debug, Clone, PartialEq, Eq)]
pub enum ReconError {
    /// The header did not carry `0x0400` or `0x0800`; use [`crate::decode`].
    NotABigProp { flags: u16 },
    /// The blob ended before the fixed container prefix.
    TooShort { available: usize, needed: usize },
    /// The embedded length field points past the end of the blob.
    ImageRunsPastEnd { declared: usize, available: usize },
    /// The prop header was not parseable.
    Header(PropError),
    /// The base image did not decode as 44x44 S20.
    BaseImage(PropError),
    /// The embedded file is not the PNG the flag bits promise.
    EmbeddedNotPng,
    /// The embedded file is not a parseable RIFF/WEBP container.
    EmbeddedNotWebp,
    /// A WebP chunk declared a length that runs past the buffer.
    WebpChunkTruncated { fourcc: [u8; 4], declared: usize },
}

/// The four characters of a chunk name, one per byte.
pub open spec fn fourcc_text(f: Seq<u8>) -> Seq<char> {
    Seq::new(f.len(), |i: int| f[i] as char)
}

/// What a recon error says.
pub open spec fn spec_recon_message(e: ReconError) -> Seq<char> {
    match e {
        ReconError::NotABigProp { flags } => "flags 0x"@ + crate::json::hex4(flags as int)
            + " do not select the big-prop container"@,
        ReconError::TooShort { available, needed } => "big prop is "@ + spec_decimal(
            available as nat,
        ) + " byte(s); at least "@ + spec_decimal(needed as nat)
            + " are required for the fixed prefix"@,
        ReconError::ImageRunsPastEnd { declared, available } => "embedded image declares "@
            + spec_decimal(declared as nat) + " byte(s) but only "@ + spec_decimal(
            available as nat,
        ) + " remain"@,
        ReconError::Header(e) => "prop header: "@ + spec_message(e),
        ReconError::BaseImage(e) => "base image: "@ + spec_message(e),
        ReconError::EmbeddedNotPng => "0x0400 without 0x0800 but no PNG signature"@,
        ReconError::EmbeddedNotWebp => "0x0800 set but embedded file is not RIFF/WEBP"@,
        ReconError::WebpChunkTruncated { fourcc, declared } => "WebP chunk "@ + fourcc_text(
            fourcc@,
        ) + " declares "@ + spec_decimal(declared as nat) + " byte(s) past the end of the file"@,
    }
}

impl ReconError {
    /// The human-readable text of the error.
    pub fn message(&self) -> (r: String)
        ensures
            r@ == spec_recon_message(*self),
    {
        let mut out = String::new();
        match self {
            ReconError::NotABigProp { flags } => {
                push_str(&mut out, "flags 0x");
                crate::json::push_hex4(&mut out, *flags as u32);
                push_str(&mut out, " do not select the big-prop container");
                assert(out@ =~= spec_recon_message(*self));
            },
            ReconError::TooShort { available, needed } => {
                push_str(&mut out, "big prop is ");
                push_decimal(&mut out, *available as u64);
                push_str(&mut out, " byte(s); at least ");
                push_decimal(&mut out, *needed as u64);
                push_str(&mut out, " are required for the fixed prefix");
                assert(out@ =~= spec_recon_message(*self));
            },
            ReconError::ImageRunsPastEnd { declared, available } => {
                push_str(&mut out, "embedded image declares ");
                push_decimal(&mut out, *declared as u64);
                push_str(&mut out, " byte(s) but only ");
                push_decimal(&mut out, *available as u64);
                push_str(&mut out, " remain");
                assert(out@ =~= spec_recon_message(*self));
            },
            ReconError::Header(e) => {
                push_str(&mut out, "prop header: ");
                let m = e.message();
                push_str(&mut out, m.as_str());
                assert(out@ =~= spec_recon_message(*self));
            },
            ReconError::BaseImage(e) => {
                push_str(&mut out, "base image: ");
                let m = e.message();
                push_str(&mut out, m.as_str());
                assert(out@ =~= spec_recon_message(*self));
            },
            ReconError::EmbeddedNotPng => {
                push_str(&mut out, "0x0400 without 0x0800 but no PNG signature");
                assert(out@ =~= spec_recon_message(*self));
            },
            ReconError::EmbeddedNotWebp => {
                push_str(&mut out, "0x0800 set but embedded file is not RIFF/WEBP");
                assert(out@ =~= spec_recon_message(*self));
            },
            ReconError::WebpChunkTruncated { fourcc, declared } => {
                push_str(&mut out, "WebP chunk ");
                let ghost before = out@;
                push_char(&mut out, fourcc[0] as char);
                push_char(&mut out, fourcc[1] as char);
                push_char(&mut out, fourcc[2] as char);
                push_char(&mut out, fourcc[3] as char);
                assert(out@ =~= before + fourcc_text(fourcc@));
                push_str(&mut out, " declares ");
                push_decimal(&mut out, *declared as u64);
                push_str(&mut out, " byte(s) past the end of the file");
                assert(out@ =~= spec_recon_message(*self));
            },
        }
        out
    }
}

/// The 12-byte descriptor that positions the big image over the 44x44 base.
/// `reserved` is the one field whose meaning is undetermined; it is kept
/// verbatim so a re-encode is byte-exact.
#[derive(Debug, Clone, Copy, PartialEq, Eq, Structural)]
pub struct BigImageDescriptor {
    /// Embedded image width in pixels.
    pub width: i16,
    /// Embedded image height in pixels.
    pub height: i16,
    /// Horizontal placement relative to the 44x44 cell.
    pub x_offset: i16,
    /// Vertical placement relative to the 44x44 cell.
    pub y_offset: i16,
    /// Undetermined field.
    pub reserved: u16,
    /// Container flag bits, mirroring the outer header.
    pub flags: u16,
}

/// The descriptor stored in the first 12 bytes.
pub open spec fn spec_descriptor(bytes: Seq<u8>, endian: PropEndian) -> BigImageDescriptor {
    BigImageDescriptor {
        width: spec_word(bytes, 0, endian),
        height: spec_word(bytes, 2, endian),
        x_offset: spec_word(bytes, 4, endian),
        y_offset: spec_word(bytes, 6, endian),
        reserved: spec_word(bytes, 8, endian) as u16,
        flags: spec_word(bytes, 10, endian) as u16,
    }
}

/// The 12 bytes of a descriptor.
pub open spec fn spec_encode_descriptor(d: BigImageDescriptor, endian: PropEndian) -> Seq<u8> {
    spec_word_bytes(d.width, endian) + spec_word_bytes(d.height, endian) + spec_word_bytes(
        d.x_offset,
        endian,
    ) + spec_word_bytes(d.y_offset, endian) + spec_word_bytes(d.reserved as i16, endian)
        + spec_word_bytes(d.flags as i16, endian)
}

impl BigImageDescriptor {
    /// Parse the 12-byte descriptor.
    pub fn parse(bytes: &[u8], endian: PropEndian) -> (r: Result<Self, ReconError>)
        ensures
            bytes@.len() < 12 ==> r == Err::<Self, ReconError>(
                ReconError::TooShort { available: bytes@.len() as usize, needed: 12 },
            ),
            bytes@.len() >= 12 ==> r == Ok::<Self, ReconError>(spec_descriptor(bytes@, endian)),
    {
        if bytes.len() < DESCRIPTOR_LEN {
            return Err(ReconError::TooShort { available: bytes.len(), needed: DESCRIPTOR_LEN });
        }
        Ok(
            BigImageDescriptor {
                width: crate::header::read_word(bytes, 0, endian),
                height: crate::header::read_word(bytes, 2, endian),
                x_offset: crate::header::read_word(bytes, 4, endian),
                y_offset: crate::header::read_word(bytes, 6, endian),
                reserved: crate::header::read_word(bytes, 8, endian) as u16,
                flags: crate::header::read_word(bytes, 10, endian) as u16,
            },
        )
    }

    /// Serialise back to 12 bytes in the given byte order.
    pub fn encode(&self, endian: PropEndian) -> (r: [u8; 12])
        ensures
            r@ == spec_encode_descriptor(*self, endian),
    {
        let (a0, a1) = word_bytes(self.width, endian);
        let (b0, b1) = word_bytes(self.height, endian);
        let (c0, c1) = word_bytes(self.x_offset, endian);
        let (d0, d1) = word_bytes(self.y_offset, endian);
        let (e0, e1) = word_bytes(self.reserved as i16, endian);
        let (f0, f1) = word_bytes(self.flags as i16, endian);
        let out = [a0, a1, b0, b1, c0, c1, d0, d1, e0, e1, f0, f1];
        assert(out@ =~= spec_encode_descriptor(*self, endian));
        out
    }
}

/// A stored word reads back from its two bytes wherever it sits.
proof fn lemma_word_at(s: Seq<u8>, at: int, value: i16, endian: PropEndian)
    requires
        0 <= at,
        at + 2 <= s.len(),
        s[at] == spec_word_bytes(value, endian)[0],
        s[at + 1] == spec_word_bytes(value, endian)[1],
    ensures
        spec_word(s, at, endian) == value,
{
    crate::header::lemma_word_round_trip(value, endian);
}

/// Encoding a descriptor and parsing it back gives the descriptor, in either
/// byte order.
pub proof fn lemma_descriptor_round_trip(d: BigImageDescriptor, endian: PropEndian)
    ensures
        spec_descriptor(spec_encode_descriptor(d, endian), endian) == d,
{
    let e = spec_encode_descriptor(d, endian);
    let w = spec_word_bytes(d.width, endian);
    let h = spec_word_bytes(d.height, endian);
    let x = spec_word_bytes(d.x_offset, endian);
    let y = spec_word_bytes(d.y_offset, endian);
    let r = spec_word_bytes(d.reserved as i16, endian);
    let f = spec_word_bytes(d.flags as i16, endian);
    assert(e =~= seq![w[0], w[1], h[0], h[1], x[0], x[1], y[0], y[1], r[0], r[1], f[0], f[1]]);
    lemma_word_at(e, 0, d.width, endian);
    lemma_word_at(e, 2, d.height, endian);
    lemma_word_at(e, 4, d.x_offset, endian);
    lemma_word_at(e, 6, d.y_offset, endian);
    lemma_word_at(e, 8, d.reserved as i16, endian);
    lemma_word_at(e, 10, d.flags as i16, endian);
    let rv = d.reserved;
    let fv = d.flags;
    assert(((rv as i16) as u16) == rv) by (bit_vector);
    assert(((fv as i16) as u16) == fv) by (bit_vector);
}

// ---------------------------------------------------------------------------
// Words in the header's byte order
// ---------------------------------------------------------------------------

/// The big-endian `u32` at `at`.
pub open spec fn be_u32(b: Seq<u8>, at: int) -> u32 {
    (b[at] as int * 16777216 + b[at + 1] as int * 65536 + b[at + 2] as int * 256 + b[at + 3] as int) as u32
}

/// The `u32` at `at` in a byte order.
pub open spec fn word32(b: Seq<u8>, at: int, endian: PropEndian) -> u32 {
    match endian {
        PropEndian::Little => le_u32(b, at),
        PropEndian::Big => be_u32(b, at),
    }
}

/// The four bytes of a `u32` in a byte order.
pub open spec fn word32_bytes(v: u32, endian: PropEndian) -> Seq<u8> {
    match endian {
        PropEndian::Little => u32_le(v),
        PropEndian::Big => seq![(v / 16777216) as u8, ((v / 65536) % 256) as u8, ((v / 256) % 256) as u8, (v % 256) as u8],
    }
}

fn read_u32_at(data: &[u8], at: usize, endian: PropEndian) -> (r: u32)
    requires
        at + 4 <= data@.len(),
    ensures
        r == word32(data@, at as int, endian),
{
    match endian {
        PropEndian::Little => crate::prp::read::word_u32(data, at),
        PropEndian::Big => (data[at] as u32) * 16777216 + (data[at + 1] as u32) * 65536 + (data[at + 2] as u32) * 256 + (data[at + 3] as u32),
    }
}

fn put_u32_in(out: &mut Vec<u8>, v: u32, endian: PropEndian)
    ensures
        final(out)@ == old(out)@ + word32_bytes(v, endian),
{
    match endian {
        PropEndian::Little => crate::prp::write::put_u32(out, v),
        PropEndian::Big => {
            out.push((v / 16777216) as u8);
            out.push(((v / 65536) % 256) as u8);
            out.push(((v / 256) % 256) as u8);
            out.push((v % 256) as u8);
            assert(out@ =~= old(out)@ + word32_bytes(v, endian));
        },
    }
}

/// The bytes of a stored word, read and written back, are the bytes.
proof fn lemma_word32_bytes_back(s: Seq<u8>, at: int, endian: PropEndian)
    requires
        0 <= at,
        at + 4 <= s.len(),
    ensures
        word32_bytes(word32(s, at, endian), endian) == s.subrange(at, at + 4),
{
    let b0 = s[at];
    let b1 = s[at + 1];
    let b2 = s[at + 2];
    let b3 = s[at + 3];
    let v: u32 = match endian {
        PropEndian::Little => (b0 as int + b1 as int * 256 + b2 as int * 65536 + b3 as int * 16777216) as u32,
        PropEndian::Big => (b0 as int * 16777216 + b1 as int * 65536 + b2 as int * 256 + b3 as int) as u32,
    };
    assert(word32(s, at, endian) == v);
    match endian {
        PropEndian::Little => {
            assert((b0 as int + b1 as int * 256 + b2 as int * 65536 + b3 as int * 16777216) <= u32::MAX);
            let w = (b0 as int + b1 as int * 256 + b2 as int * 65536 + b3 as int * 16777216);
            assert(w % 256 == b0 && (w / 256) % 256 == b1 && (w / 65536) % 256 == b2 && w / 16777216 == b3) by (nonlinear_arith)
                requires
                    w == b0 as int + b1 as int * 256 + b2 as int * 65536 + b3 as int * 16777216,
                    0 <= b0 < 256,
                    0 <= b1 < 256,
                    0 <= b2 < 256,
                    0 <= b3 < 256,
            ;
        },
        PropEndian::Big => {
            let w = (b0 as int * 16777216 + b1 as int * 65536 + b2 as int * 256 + b3 as int);
            assert(w % 256 == b3 && (w / 256) % 256 == b2 && (w / 65536) % 256 == b1 && w / 16777216 == b0) by (nonlinear_arith)
                requires
                    w == b0 as int * 16777216 + b1 as int * 65536 + b2 as int * 256 + b3 as int,
                    0 <= b0 < 256,
                    0 <= b1 < 256,
                    0 <= b2 < 256,
                    0 <= b3 < 256,
            ;
        },
    }
    assert(word32_bytes(v, endian) =~= s.subrange(at, at + 4));
}

/// The two bytes of a stored 16-bit word, read and written back, are the
/// bytes.
proof fn lemma_word_bytes_back(s: Seq<u8>, at: int, endian: PropEndian)
    requires
        0 <= at,
        at + 2 <= s.len(),
    ensures
        spec_word_bytes(spec_word(s, at, endian), endian) == s.subrange(at, at + 2),
{
    let a = s[at];
    let b = s[at + 1];
    match endian {
        PropEndian::Little => {
            let u = (b as u16 * 256 + a as u16) as u16;
            assert((((u as i16) as u16) % 256) as u8 == a && ((((u as i16) as u16) / 256) as u8) == b) by (bit_vector)
                requires
                    u == (b as u16 * 256 + a as u16) as u16,
            ;
        },
        PropEndian::Big => {
            let u = (a as u16 * 256 + b as u16) as u16;
            assert((((u as i16) as u16) / 256) as u8 == a && ((((u as i16) as u16) % 256) as u8) == b) by (bit_vector)
                requires
                    u == (a as u16 * 256 + b as u16) as u16,
            ;
        },
    }
    assert(spec_word_bytes(spec_word(s, at, endian), endian) =~= s.subrange(at, at + 2));
}

// ---------------------------------------------------------------------------
// The embedded file
// ---------------------------------------------------------------------------

/// Animation metadata read from an embedded animated WebP.
#[derive(Debug, Clone, PartialEq, Eq)]
pub struct WebpAnimation {
    /// Canvas width from the `VP8X` chunk.
    pub canvas_width: u32,
    /// Canvas height from the `VP8X` chunk.
    pub canvas_height: u32,
    /// Number of `ANMF` frames.
    pub frame_count: u32,
    /// Loop count from the `ANIM` chunk (`0` = loop forever).
    pub loop_count: u16,
    /// Background colour from the `ANIM` chunk.
    pub background: u32,
    /// Per-frame display durations in milliseconds, in frame order.
    pub frame_durations_ms: Vec<u32>,
}

/// What kind of file is embedded.
#[derive(Debug, Clone, PartialEq, Eq)]
pub enum EmbeddedImage {
    /// A static PNG (flag `0x0400` only).
    Png {
        /// IHDR width.
        width: u32,
        /// IHDR height.
        height: u32,
    },
    /// An animated WebP (flag `0x0800`).
    AnimatedWebp(WebpAnimation),
}

/// What walking the WebP chunks has read so far.
pub struct WebpState {
    /// Canvas width.
    pub canvas_width: u32,
    /// Canvas height.
    pub canvas_height: u32,
    /// Loop count.
    pub loop_count: u16,
    /// Background colour.
    pub background: u32,
    /// Frame durations.
    pub durations: Seq<u32>,
}

/// A little-endian 24-bit value.
pub open spec fn u24_at(b: Seq<u8>, at: int) -> u32 {
    (b[at] as int + b[at + 1] as int * 256 + b[at + 2] as int * 65536) as u32
}

/// The little-endian 16-bit value at `at`.
pub open spec fn u16_at(b: Seq<u8>, at: int) -> u16 {
    (b[at] as int + b[at + 1] as int * 256) as u16
}

/// What one chunk contributes.
pub open spec fn chunk_update(data: Seq<u8>, i: int, size: int, st: WebpState) -> WebpState {
    let payload = i + 8;
    let tag = data.subrange(i, i + 4);
    if tag == "VP8X"@.map_values(|c: char| c as u8) && size >= 10 {
        WebpState {
            canvas_width: (1 + u24_at(data, payload + 4)) as u32,
            canvas_height: (1 + u24_at(data, payload + 7)) as u32,
            ..st
        }
    } else if tag == "ANIM"@.map_values(|c: char| c as u8) && size >= 6 {
        WebpState { background: le_u32(data, payload), loop_count: u16_at(data, payload + 4), ..st }
    } else if tag == "ANMF"@.map_values(|c: char| c as u8) && size >= 16 {
        WebpState { durations: st.durations.push(u24_at(data, payload + 12)), ..st }
    } else {
        st
    }
}

/// Why an embedded WebP could not be walked.
pub enum WebpFailure {
    /// Not a RIFF/WEBP container.
    NotWebp,
    /// A chunk with this name declares this many bytes past the end.
    Truncated(Seq<u8>, int),
}

/// Walk the chunks from `i` on.
pub open spec fn webp_walk(data: Seq<u8>, i: int, st: WebpState) -> Result<WebpState, WebpFailure>
    decreases data.len() + 1 - i,
{
    if i < 0 || i + 8 > data.len() {
        Ok(st)
    } else {
        let size = le_u32(data, i + 4) as int;
        let end = i + 8 + size;
        if end > data.len() {
            Err(WebpFailure::Truncated(data.subrange(i, i + 4), size))
        } else {
            webp_walk(data, end + size % 2, chunk_update(data, i, size, st))
        }
    }
}

/// The recon error a WebP failure is reported as.
pub open spec fn webp_error_is(e: ReconError, f: WebpFailure) -> bool {
    match f {
        WebpFailure::NotWebp => e == ReconError::EmbeddedNotWebp,
        WebpFailure::Truncated(tag, size) => e matches ReconError::WebpChunkTruncated { fourcc, declared }
            && fourcc@ == tag && declared == size,
    }
}

/// The animation an embedded WebP describes, or why it is not one.
pub open spec fn spec_webp(data: Seq<u8>) -> Result<WebpState, WebpFailure> {
    if data.len() < 12 || data.subrange(0, 4) != "RIFF"@.map_values(|c: char| c as u8)
        || data.subrange(8, 12) != "WEBP"@.map_values(|c: char| c as u8) {
        Err(WebpFailure::NotWebp)
    } else {
        webp_walk(data, 12, WebpState { canvas_width: 0, canvas_height: 0, loop_count: 0, background: 0, durations: Seq::empty() })
    }
}

/// The PNG signature.
pub open spec fn png_signature() -> Seq<u8> {
    seq![0x89u8, 0x50u8, 0x4Eu8, 0x47u8, 0x0Du8, 0x0Au8, 0x1Au8, 0x0Au8]
}

/// The dimensions an embedded PNG's `IHDR` states, or why it is not a PNG.
pub open spec fn spec_png(data: Seq<u8>) -> Result<(u32, u32), ReconError> {
    if data.len() < 24 || data.subrange(0, 8) != png_signature() || data.subrange(12, 16) != seq![0x49u8, 0x48u8, 0x44u8, 0x52u8] {
        Err(ReconError::EmbeddedNotPng)
    } else {
        Ok((be_u32(data, 16), be_u32(data, 20)))
    }
}

/// Whether a parsed animation holds what a walk read.
pub open spec fn webp_matches(w: WebpAnimation, st: WebpState) -> bool {
    &&& w.canvas_width == st.canvas_width
    &&& w.canvas_height == st.canvas_height
    &&& w.loop_count == st.loop_count
    &&& w.background == st.background
    &&& w.frame_durations_ms@ == st.durations
    &&& w.frame_count == st.durations.len() as u32
}

/// What the embedded file is, as the flag bits say to read it.
pub open spec fn embedded_matches(e: EmbeddedImage, flags: u16, image: Seq<u8>) -> bool {
    if flags & FLAG_WEBP != 0 {
        spec_webp(image) matches Ok(st) && e matches EmbeddedImage::AnimatedWebp(w) && webp_matches(w, st)
    } else {
        spec_png(image) matches Ok(dims) && e == (EmbeddedImage::Png { width: dims.0, height: dims.1 })
    }
}

/// Whether the embedded file cannot be read as the flag bits say, and `e` is
/// the error that says so.
pub open spec fn embedded_fails_with(flags: u16, image: Seq<u8>, e: ReconError) -> bool {
    if flags & FLAG_WEBP != 0 {
        spec_webp(image) matches Err(f) && webp_error_is(e, f)
    } else {
        spec_png(image) matches Err(pe) && e == pe
    }
}

/// Whether the embedded file can be read as the flag bits say.
pub open spec fn embedded_ok(flags: u16, image: Seq<u8>) -> bool {
    if flags & FLAG_WEBP != 0 {
        spec_webp(image) is Ok
    } else {
        spec_png(image) is Ok
    }
}

fn tag_is(data: &[u8], at: usize, a: u8, b: u8, c: u8, d: u8) -> (r: bool)
    requires
        at + 4 <= data@.len(),
    ensures
        r == (data@.subrange(at as int, at as int + 4) == seq![a, b, c, d]),
{
    let r = data[at] == a && data[at + 1] == b && data[at + 2] == c && data[at + 3] == d;
    proof {
        if r {
            assert(data@.subrange(at as int, at as int + 4) =~= seq![a, b, c, d]);
        } else {
            if data@.subrange(at as int, at as int + 4) == seq![a, b, c, d] {
                assert(data@.subrange(at as int, at as int + 4)[0] == a);
                assert(data@.subrange(at as int, at as int + 4)[1] == b);
                assert(data@.subrange(at as int, at as int + 4)[2] == c);
                assert(data@.subrange(at as int, at as int + 4)[3] == d);
            }
        }
    }
    r
}

/// Parse the PNG signature and IHDR dimensions. Does not decode pixels.
fn parse_png(data: &[u8]) -> (r: Result<EmbeddedImage, ReconError>)
    ensures
        match spec_png(data@) {
            Err(e) => r == Err::<EmbeddedImage, ReconError>(e),
            Ok(dims) => r == Ok::<EmbeddedImage, ReconError>(EmbeddedImage::Png { width: dims.0, height: dims.1 }),
        },
{
    if data.len() < 24 {
        return Err(ReconError::EmbeddedNotPng);
    }
    let sig = data[0] == 0x89 && data[1] == 0x50 && data[2] == 0x4E && data[3] == 0x47 && data[4] == 0x0D && data[5] == 0x0A && data[6] == 0x1A && data[7] == 0x0A;
    proof {
        if sig {
            assert(data@.subrange(0, 8) =~= png_signature());
        } else if data@.subrange(0, 8) == png_signature() {
            assert(data@.subrange(0, 8)[0] == data@[0]);
            assert(data@.subrange(0, 8)[1] == data@[1]);
            assert(data@.subrange(0, 8)[2] == data@[2]);
            assert(data@.subrange(0, 8)[3] == data@[3]);
            assert(data@.subrange(0, 8)[4] == data@[4]);
            assert(data@.subrange(0, 8)[5] == data@[5]);
            assert(data@.subrange(0, 8)[6] == data@[6]);
            assert(data@.subrange(0, 8)[7] == data@[7]);
        }
    }
    if !sig || !tag_is(data, 12, 0x49, 0x48, 0x44, 0x52) {
        return Err(ReconError::EmbeddedNotPng);
    }
    let width = read_u32_at(data, 16, PropEndian::Big);
    let height = read_u32_at(data, 20, PropEndian::Big);
    Ok(EmbeddedImage::Png { width, height })
}

/// Walk a RIFF/WEBP container, reading the animation chunks; does not decode
/// pixels, only the frame table and timing.
fn parse_webp_animation(data: &[u8]) -> (r: Result<WebpAnimation, ReconError>)
    ensures
        match spec_webp(data@) {
            Err(f) => r matches Err(e) && webp_error_is(e, f),
            Ok(st) => r matches Ok(w) && webp_matches(w, st),
        },
{
    proof {
        reveal_strlit("RIFF");
        reveal_strlit("WEBP");
        reveal_strlit("VP8X");
        reveal_strlit("ANIM");
        reveal_strlit("ANMF");
    }
    assert("RIFF"@.map_values(|c: char| c as u8) =~= seq![0x52u8, 0x49u8, 0x46u8, 0x46u8]);
    assert("WEBP"@.map_values(|c: char| c as u8) =~= seq![0x57u8, 0x45u8, 0x42u8, 0x50u8]);
    assert("VP8X"@.map_values(|c: char| c as u8) =~= seq![0x56u8, 0x50u8, 0x38u8, 0x58u8]);
    assert("ANIM"@.map_values(|c: char| c as u8) =~= seq![0x41u8, 0x4Eu8, 0x49u8, 0x4Du8]);
    assert("ANMF"@.map_values(|c: char| c as u8) =~= seq![0x41u8, 0x4Eu8, 0x4Du8, 0x46u8]);
    if data.len() < 12 || !tag_is(data, 0, 0x52, 0x49, 0x46, 0x46) || !tag_is(data, 8, 0x57, 0x45, 0x42, 0x50) {
        return Err(ReconError::EmbeddedNotWebp);
    }
    let len = data.len();
    let mut canvas_width: u32 = 0;
    let mut canvas_height: u32 = 0;
    let mut loop_count: u16 = 0;
    let mut background: u32 = 0;
    let mut durations: Vec<u32> = Vec::new();
    let ghost init = WebpState { canvas_width: 0, canvas_height: 0, loop_count: 0, background: 0, durations: Seq::empty() };
    assert(spec_webp(data@) == webp_walk(data@, 12, init));
    let mut i: u128 = 12;
    while i + 8 <= len as u128
        invariant
            len == data@.len(),
            "VP8X"@.map_values(|c: char| c as u8) == seq![0x56u8, 0x50u8, 0x38u8, 0x58u8],
            "ANIM"@.map_values(|c: char| c as u8) == seq![0x41u8, 0x4Eu8, 0x49u8, 0x4Du8],
            "ANMF"@.map_values(|c: char| c as u8) == seq![0x41u8, 0x4Eu8, 0x4Du8, 0x46u8],
            12 <= i,
            i <= len + 1,
            spec_webp(data@) == webp_walk(data@, 12, init),
            webp_walk(data@, 12, init) == webp_walk(
                data@,
                i as int,
                WebpState { canvas_width, canvas_height, loop_count, background, durations: durations@ },
            ),
        decreases len + 1 - i,
    {
        let at = i as usize;
        let fourcc: [u8; 4] = [data[at], data[at + 1], data[at + 2], data[at + 3]];
        let size = crate::prp::read::word_u32(data, at + 4) as u128;
        let end = i + 8 + size;
        if end > len as u128 {
            assert(fourcc@ =~= data@.subrange(at as int, at as int + 4));
            return Err(ReconError::WebpChunkTruncated { fourcc, declared: size as usize });
        }
        let payload = at + 8;
        let ghost st = WebpState { canvas_width, canvas_height, loop_count, background, durations: durations@ };
        if tag_is(data, at, 0x56, 0x50, 0x38, 0x58) && size >= 10 {
            canvas_width = 1 + ((data[payload + 4] as u32) + (data[payload + 5] as u32) * 256 + (data[payload + 6] as u32) * 65536);
            canvas_height = 1 + ((data[payload + 7] as u32) + (data[payload + 8] as u32) * 256 + (data[payload + 9] as u32) * 65536);
        } else if tag_is(data, at, 0x41, 0x4E, 0x49, 0x4D) && size >= 6 {
            background = crate::prp::read::word_u32(data, payload);
            loop_count = ((data[payload + 4] as u32) + (data[payload + 5] as u32) * 256) as u16;
        } else if tag_is(data, at, 0x41, 0x4E, 0x4D, 0x46) && size >= 16 {
            durations.push((data[payload + 12] as u32) + (data[payload + 13] as u32) * 256 + (data[payload + 14] as u32) * 65536);
        }
        assert(WebpState { canvas_width, canvas_height, loop_count, background, durations: durations@ }
            == chunk_update(data@, at as int, size as int, st));
        i = end + size % 2;
    }
    let count = durations.len() as u32;
    Ok(WebpAnimation { canvas_width, canvas_height, frame_count: count, loop_count, background, frame_durations_ms: durations })
}

// ---------------------------------------------------------------------------
// The container
// ---------------------------------------------------------------------------

/// A decoded big prop: the base image, the placement descriptor and the
/// embedded file, all kept so the blob can be rebuilt byte for byte.
#[derive(Debug, Clone, PartialEq, Eq)]
pub struct BigProp {
    /// The outer 44x44 header.
    pub header: PropHeader,
    /// Raw 4840-byte base image, exactly as stored (uncompressed S20).
    pub base_raw: Vec<u8>,
    /// The base image decoded to RGBA.
    pub base_image: PropImage,
    /// The big-image placement descriptor.
    pub descriptor: BigImageDescriptor,
    /// The embedded file length as declared by the container.
    pub image_len: u32,
    /// The embedded PNG / animated WebP bytes, verbatim.
    pub image: Vec<u8>,
    /// Parsed metadata for the embedded file.
    pub embedded: EmbeddedImage,
}

impl BigProp {
    /// Whether the embedded file is an animated WebP, a multi-frame prop.
    pub fn is_animated(&self) -> (r: bool)
        ensures
            r == (self.embedded is AnimatedWebp),
    {
        match self.embedded {
            EmbeddedImage::AnimatedWebp(_) => true,
            EmbeddedImage::Png { .. } => false,
        }
    }
}

/// Whether a blob's header selects the big-prop container.
pub open spec fn spec_is_big_prop(data: Seq<u8>) -> bool {
    spec_parse_header(data) matches Ok(h) && h.flags & BIG_FLAG_MASK != 0
}

/// Whether `data` looks like a big prop container, without decoding it.
pub fn is_big_prop(data: &[u8]) -> (r: bool)
    ensures
        r == spec_is_big_prop(data@),
{
    match PropHeader::parse(data) {
        Ok(h) => h.flags & BIG_FLAG_MASK != 0,
        Err(_) => false,
    }
}

/// The blob a decoded big prop is rebuilt as.
pub open spec fn spec_encode_big(
    h: PropHeader,
    base_raw: Seq<u8>,
    image_len: u32,
    d: BigImageDescriptor,
    image: Seq<u8>,
) -> Seq<u8> {
    spec_encode_header(h) + base_raw + word32_bytes(image_len, h.endian) + spec_encode_descriptor(
        d,
        h.endian,
    ) + image
}

/// Whether a decoded big prop holds what the blob stores.
pub open spec fn decoded_from(p: BigProp, data: Seq<u8>, h: PropHeader, len: int) -> bool {
    &&& p.header == h
    &&& p.base_raw@ == data.subrange(12, 4852)
    &&& spec_decode_s20(data.subrange(12, 4852), 44, 44) == Ok::<ImageView, PropError>(p.base_image@)
    &&& p.base_image.wf()
    &&& p.descriptor == spec_descriptor(data.subrange(4856, 4868), h.endian)
    &&& p.image_len as int == len
    &&& p.image@ == data.subrange(4868, 4868 + len)
    &&& embedded_matches(p.embedded, h.flags, p.image@)
}

/// What decoding a big-prop blob gives: the container, or the error that
/// says why not.
pub open spec fn big_prop_outcome(data: Seq<u8>, r: Result<BigProp, ReconError>) -> bool {
    match spec_parse_header(data) {
        Err(e) => r == Err::<BigProp, ReconError>(ReconError::Header(e)),
        Ok(h) => if h.flags & BIG_FLAG_MASK == 0 {
            r == Err::<BigProp, ReconError>(ReconError::NotABigProp { flags: h.flags })
        } else if data.len() < IMAGE_OFFSET {
            r == Err::<BigProp, ReconError>(
                ReconError::TooShort { available: data.len() as usize, needed: IMAGE_OFFSET },
            )
        } else {
            let len = word32(data, 4852, h.endian) as int;
            if IMAGE_OFFSET + len > data.len() {
                r matches Err(ReconError::ImageRunsPastEnd { declared, available }) && declared == len
                    && available == data.len() - IMAGE_OFFSET
            } else if !embedded_ok(h.flags, data.subrange(4868, 4868 + len)) {
                r matches Err(e) && embedded_fails_with(h.flags, data.subrange(4868, 4868 + len), e)
            } else {
                r matches Ok(p) && decoded_from(p, data, h, len)
            }
        },
    }
}

/// Decode a big-prop container. Never panics on malformed input.
pub fn decode_big_prop(data: &[u8]) -> (r: Result<BigProp, ReconError>)
    ensures
        big_prop_outcome(data@, r),
{
    let header = match PropHeader::parse(data) {
        Ok(h) => h,
        Err(e) => {
            return Err(ReconError::Header(e));
        },
    };
    if header.flags & BIG_FLAG_MASK == 0 {
        return Err(ReconError::NotABigProp { flags: header.flags });
    }
    let n = data.len();
    if n < IMAGE_OFFSET {
        return Err(ReconError::TooShort { available: n, needed: IMAGE_OFFSET });
    }
    let base_raw = crate::codec::thirtytwo::slice_to_vec(&data[BASE_IMAGE_OFFSET..IMAGE_LEN_OFFSET]);
    let base_image = match crate::codec::s20::decode(base_raw.as_slice(), BASE_SIDE, BASE_SIDE) {
        Ok(img) => img,
        Err(e) => {
            proof {
                assert(crate::codec::s20::groups_for(1936) == 968);
            }
            return Err(ReconError::BaseImage(e));
        },
    };
    let image_len = read_u32_at(data, IMAGE_LEN_OFFSET, header.endian);
    let end: u64 = IMAGE_OFFSET as u64 + image_len as u64;
    if end > n as u64 {
        return Err(ReconError::ImageRunsPastEnd { declared: image_len as usize, available: n - IMAGE_OFFSET });
    }
    let image = crate::codec::thirtytwo::slice_to_vec(&data[IMAGE_OFFSET..end as usize]);
    let descriptor = match BigImageDescriptor::parse(&data[DESCRIPTOR_OFFSET..IMAGE_OFFSET], header.endian) {
        Ok(d) => d,
        Err(e) => {
            return Err(e);
        },
    };
    let embedded = if header.flags & FLAG_WEBP != 0 {
        match parse_webp_animation(image.as_slice()) {
            Ok(w) => EmbeddedImage::AnimatedWebp(w),
            Err(e) => {
                return Err(e);
            },
        }
    } else {
        match parse_png(image.as_slice()) {
            Ok(e) => e,
            Err(e) => {
                return Err(e);
            },
        }
    };
    Ok(BigProp { header, base_raw, base_image, descriptor, image_len, image, embedded })
}

/// Re-assemble the blob from its parsed parts.
pub fn encode_big_prop(prop: &BigProp) -> (r: Vec<u8>)
    ensures
        r@ == spec_encode_big(prop.header, prop.base_raw@, prop.image_len, prop.descriptor, prop.image@),
{
    let mut out: Vec<u8> = Vec::new();
    let h = prop.header.encode();
    crate::prp::write::put_bytes(&mut out, &h);
    crate::prp::write::put_bytes(&mut out, prop.base_raw.as_slice());
    put_u32_in(&mut out, prop.image_len, prop.header.endian);
    let d = prop.descriptor.encode(prop.header.endian);
    crate::prp::write::put_bytes(&mut out, &d);
    crate::prp::write::put_bytes(&mut out, prop.image.as_slice());
    out
}

/// Twelve bytes read as six words and written back are the bytes.
proof fn lemma_six_words_back(s: Seq<u8>, endian: PropEndian)
    requires
        s.len() == 12,
    ensures
        spec_word_bytes(spec_word(s, 0, endian), endian) + spec_word_bytes(spec_word(s, 2, endian), endian)
            + spec_word_bytes(spec_word(s, 4, endian), endian) + spec_word_bytes(
            spec_word(s, 6, endian),
            endian,
        ) + spec_word_bytes(spec_word(s, 8, endian), endian) + spec_word_bytes(
            spec_word(s, 10, endian),
            endian,
        ) == s,
{
    lemma_word_bytes_back(s, 0, endian);
    lemma_word_bytes_back(s, 2, endian);
    lemma_word_bytes_back(s, 4, endian);
    lemma_word_bytes_back(s, 6, endian);
    lemma_word_bytes_back(s, 8, endian);
    lemma_word_bytes_back(s, 10, endian);
    assert(s.subrange(0, 2) + s.subrange(2, 4) + s.subrange(4, 6) + s.subrange(6, 8) + s.subrange(8, 10)
        + s.subrange(10, 12) =~= s);
}

proof fn lemma_u16_word(x: i16)
    ensures
        ((x as u16) as i16) == x,
{
    assert(((x as u16) as i16) == x) by (bit_vector);
}

/// A decoded big prop, encoded again, gives back the blob up to the end of
/// its embedded file: the container round-trips byte for byte, and a blob
/// that ends where its embedded file ends is reproduced whole.
pub proof fn lemma_big_prop_round_trip(data: Seq<u8>, p: BigProp)
    requires
        data.len() >= IMAGE_OFFSET,
        spec_parse_header(data) is Ok,
        IMAGE_OFFSET + word32(data, 4852, spec_parse_header(data).unwrap().endian) as int <= data.len(),
        decoded_from(
            p,
            data,
            spec_parse_header(data).unwrap(),
            word32(data, 4852, spec_parse_header(data).unwrap().endian) as int,
        ),
    ensures
        spec_encode_big(p.header, p.base_raw@, p.image_len, p.descriptor, p.image@) == data.subrange(
            0,
            IMAGE_OFFSET + p.image_len as int,
        ),
{
    let h = spec_parse_header(data).unwrap();
    let e = h.endian;
    let len = p.image_len as int;
    let hb = data.subrange(0, 12);
    assert(h == crate::header::header_fields(data, crate::header::sniffed(data)));
    lemma_six_words_back(hb, e);
    assert(spec_word(hb, 0, e) == spec_word(data, 0, e));
    assert(spec_word(hb, 2, e) == spec_word(data, 2, e));
    assert(spec_word(hb, 4, e) == spec_word(data, 4, e));
    assert(spec_word(hb, 6, e) == spec_word(data, 6, e));
    assert(spec_word(hb, 8, e) == spec_word(data, 8, e));
    assert(spec_word(hb, 10, e) == spec_word(data, 10, e));
    lemma_u16_word(spec_word(data, 10, e));
    assert(spec_encode_header(h) == hb);
    let db = data.subrange(4856, 4868);
    lemma_six_words_back(db, e);
    let d = p.descriptor;
    lemma_u16_word(spec_word(db, 8, e));
    lemma_u16_word(spec_word(db, 10, e));
    assert(spec_encode_descriptor(d, e) == db);
    lemma_word32_bytes_back(data, 4852, e);
    assert(word32_bytes(p.image_len, e) == data.subrange(4852, 4856));
    assert(spec_encode_big(p.header, p.base_raw@, p.image_len, p.descriptor, p.image@) =~= data.subrange(
        0,
        IMAGE_OFFSET + len,
    ));
}

} // verus!
