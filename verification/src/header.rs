//! The 12-byte prop header, its byte order, its flag bits and the format mask.
//!
//! Every prop is a 12-byte header followed by a pixel payload. The header is six
//! signed 16-bit words:
//!
//! ```text
//! offset  field          type   meaning
//!   0     width          s16    pixels; 44 for every prop in the corpus
//!   2     height         s16    pixels
//!   4     h_offset       s16    horizontal origin offset, may be negative
//!   6     v_offset       s16    vertical origin offset, may be negative
//!   8     script_offset  s16    byte offset of the prop's script, 0 in practice
//!  10     flags          u16    format selector + HEAD/GHOST/RARE/ANIMATE/BOUNCE
//! ```
//!
//! The byte order is sniffed per prop: little-endian when `data[1] == 0`,
//! big-endian otherwise.

use vstd::prelude::*;

use crate::error::{PropError, MAX_DIMENSION};

verus! {

/// Length of the fixed prop header.
pub const HEADER_LEN: usize = 12;

/// `HEAD 0x02` — the prop is worn on the head.
pub const FLAG_HEAD: u16 = 0x0002;
/// `GHOST 0x04` — the prop draws with a ghosting effect.
pub const FLAG_GHOST: u16 = 0x0004;
/// `RARE 0x08` — the prop is marked rare in the prop bag.
pub const FLAG_RARE: u16 = 0x0008;
/// `ANIMATE 0x10` — the prop animates.
pub const FLAG_ANIMATE: u16 = 0x0010;
/// `BOUNCE 0x20` — also spelled `PALINDROME` in the reference sources.
pub const FLAG_BOUNCE: u16 = 0x0020;
/// `20BIT 0x0040` — 6-6-6-2 20-bit payload.
pub const FLAG_FORMAT_20BIT: u16 = 0x0040;
/// `32BIT 0x0100` — 4-byte RGBA payload.
pub const FLAG_FORMAT_32BIT: u16 = 0x0100;
/// `S20BIT 0x0200` — 5-5-5-5 20-bit payload.
pub const FLAG_FORMAT_S20BIT: u16 = 0x0200;
/// The three bits that select a pixel format (`0x0340`).
pub const FORMAT_MASK: u16 = 0x0340;
/// Mask used for the 16-bit special case.
pub const SIXTEEN_BIT_MASK: u16 = 0xFFC1;
/// The value `flags & SIXTEEN_BIT_MASK` takes on a 16-bit prop.
pub const SIXTEEN_BIT_PATTERN: u16 = 0xFF80;

/// Byte order of a prop's header.
#[derive(Debug, Clone, Copy, PartialEq, Eq, Structural)]
pub enum PropEndian {
    /// `data[1] == 0`.
    Little,
    /// `data[1] != 0`.
    Big,
}

/// The byte order a buffer of at least two bytes is sniffed as.
pub open spec fn sniffed(data: Seq<u8>) -> PropEndian {
    if data[1] == 0 {
        PropEndian::Little
    } else {
        PropEndian::Big
    }
}

impl PropEndian {
    /// Sniff the byte order from the first two bytes, before any field is read.
    pub fn sniff(data: &[u8]) -> (r: Option<Self>)
        ensures
            r == (if data@.len() > 1 { Some(sniffed(data@)) } else { None::<PropEndian> }),
    {
        if data.len() > 1 {
            if data[1] == 0 {
                Some(PropEndian::Little)
            } else {
                Some(PropEndian::Big)
            }
        } else {
            None
        }
    }
}

/// Which of the five pixel encodings a prop uses.
#[derive(Debug, Clone, Copy, PartialEq, Eq, Hash, Structural)]
pub enum PropFormat {
    /// Nibble run-length, palette-indexed, uncompressed.
    EightBit,
    /// 5-5-5-1, zlib-compressed.
    SixteenBit,
    /// 6-6-6-2, zlib-compressed.
    TwentyBit,
    /// 5-5-5-5, zlib-compressed. The only format the reference client emits.
    S20Bit,
    /// 4-byte RGBA, zlib-compressed.
    ThirtyTwoBit,
}

/// Decompressed bytes a format needs for `pixels` pixels.
pub open spec fn spec_payload_bytes_for(format: PropFormat, pixels: int) -> int {
    match format {
        PropFormat::EightBit => 0,
        PropFormat::SixteenBit => pixels * 2,
        PropFormat::TwentyBit | PropFormat::S20Bit => ((pixels + 1) / 2) * 5,
        PropFormat::ThirtyTwoBit => pixels * 4,
    }
}

/// The stable lowercase name of a format.
pub open spec fn spec_format_name(format: PropFormat) -> &'static str {
    match format {
        PropFormat::EightBit => "8-bit",
        PropFormat::SixteenBit => "16-bit",
        PropFormat::TwentyBit => "20-bit",
        PropFormat::S20Bit => "s20-bit",
        PropFormat::ThirtyTwoBit => "32-bit",
    }
}

impl PropFormat {
    /// A stable lowercase name, used in error messages and corpus reports.
    pub fn name(self) -> (r: &'static str)
        ensures
            r == spec_format_name(self),
    {
        match self {
            PropFormat::EightBit => "8-bit",
            PropFormat::SixteenBit => "16-bit",
            PropFormat::TwentyBit => "20-bit",
            PropFormat::S20Bit => "s20-bit",
            PropFormat::ThirtyTwoBit => "32-bit",
        }
    }

    /// Whether the pixel payload is wrapped in zlib (everything but 8-bit).
    pub fn is_zlib(self) -> (r: bool)
        ensures
            r == (self != PropFormat::EightBit),
    {
        match self {
            PropFormat::EightBit => false,
            _ => true,
        }
    }

    /// Bytes of decompressed payload consumed per pixel, when uniform.
    pub fn bytes_per_pixel(self) -> (r: Option<usize>)
        ensures
            r == (match self {
                PropFormat::SixteenBit => Some(2usize),
                PropFormat::ThirtyTwoBit => Some(4usize),
                _ => None::<usize>,
            }),
    {
        match self {
            PropFormat::EightBit => None,
            PropFormat::SixteenBit => Some(2),
            PropFormat::TwentyBit | PropFormat::S20Bit => None,
            PropFormat::ThirtyTwoBit => Some(4),
        }
    }

    /// Decompressed bytes needed to decode `pixels` pixels in this format.
    pub fn payload_bytes_for(self, pixels: usize) -> (r: usize)
        requires
            pixels as int * 4 <= usize::MAX,
        ensures
            r as int == spec_payload_bytes_for(self, pixels as int),
    {
        match self {
            PropFormat::EightBit => 0,
            PropFormat::SixteenBit => pixels * 2,
            PropFormat::TwentyBit | PropFormat::S20Bit => {
                let groups = pixels / 2 + pixels % 2;
                assert(groups == (pixels as int + 1) / 2);
                groups * 5
            },
            PropFormat::ThirtyTwoBit => pixels * 4,
        }
    }
}

/// A parsed prop header.
#[derive(Debug, Clone, Copy, PartialEq, Eq, Structural)]
pub struct PropHeader {
    /// Width in pixels.
    pub width: i16,
    /// Height in pixels.
    pub height: i16,
    /// Horizontal origin offset (signed).
    pub h_offset: i16,
    /// Vertical origin offset (signed).
    pub v_offset: i16,
    /// Byte offset of the prop's script, 0 in every prop observed.
    pub script_offset: i16,
    /// The raw flag word.
    pub flags: u16,
    /// The byte order the header was read with.
    pub endian: PropEndian,
}

/// The 16-bit word stored as `first, second` in the given byte order.
pub open spec fn spec_word_u16(first: u8, second: u8, endian: PropEndian) -> u16 {
    match endian {
        PropEndian::Little => (second as u16 * 256 + first as u16) as u16,
        PropEndian::Big => (first as u16 * 256 + second as u16) as u16,
    }
}

/// The signed 16-bit word at `at` in the given byte order.
pub open spec fn spec_word(data: Seq<u8>, at: int, endian: PropEndian) -> i16 {
    spec_word_u16(data[at], data[at + 1], endian) as i16
}

/// The six header fields read from `data` in the given byte order.
pub open spec fn header_fields(data: Seq<u8>, endian: PropEndian) -> PropHeader {
    PropHeader {
        width: spec_word(data, 0, endian),
        height: spec_word(data, 2, endian),
        h_offset: spec_word(data, 4, endian),
        v_offset: spec_word(data, 6, endian),
        script_offset: spec_word(data, 8, endian),
        flags: spec_word(data, 10, endian) as u16,
        endian,
    }
}

/// Whether both dimensions lie in `1..=MAX_DIMENSION`.
pub open spec fn dimensions_plausible(width: i16, height: i16) -> bool {
    0 < width <= MAX_DIMENSION && 0 < height <= MAX_DIMENSION
}

/// What [`PropHeader::parse`] returns for `data`.
pub open spec fn spec_parse_header(data: Seq<u8>) -> Result<PropHeader, PropError> {
    if data.len() < HEADER_LEN {
        Err(PropError::HeaderTooShort { available: data.len() as usize })
    } else {
        let h = header_fields(data, sniffed(data));
        if dimensions_plausible(h.width, h.height) {
            Ok(h)
        } else {
            Err(PropError::ImplausibleDimensions { width: h.width, height: h.height })
        }
    }
}

/// The format a flag word selects, testing the 16-bit pattern first.
pub open spec fn spec_format(flags: u16) -> PropFormat {
    if flags & SIXTEEN_BIT_MASK == SIXTEEN_BIT_PATTERN {
        PropFormat::SixteenBit
    } else if flags & FLAG_FORMAT_S20BIT != 0 {
        PropFormat::S20Bit
    } else if flags & FLAG_FORMAT_32BIT != 0 {
        PropFormat::ThirtyTwoBit
    } else if flags & FLAG_FORMAT_20BIT != 0 {
        PropFormat::TwentyBit
    } else {
        PropFormat::EightBit
    }
}

/// The two bytes that store `value` in the given byte order.
pub open spec fn spec_word_bytes(value: i16, endian: PropEndian) -> Seq<u8> {
    let u = value as u16;
    match endian {
        PropEndian::Little => seq![(u % 256) as u8, (u / 256) as u8],
        PropEndian::Big => seq![(u / 256) as u8, (u % 256) as u8],
    }
}

/// The 12 bytes [`PropHeader::encode`] writes.
pub open spec fn spec_encode_header(h: PropHeader) -> Seq<u8> {
    spec_word_bytes(h.width, h.endian) + spec_word_bytes(h.height, h.endian) + spec_word_bytes(
        h.h_offset,
        h.endian,
    ) + spec_word_bytes(h.v_offset, h.endian) + spec_word_bytes(h.script_offset, h.endian)
        + spec_word_bytes(h.flags as i16, h.endian)
}

/// Read one 16-bit word.
pub fn read_word(data: &[u8], at: usize, endian: PropEndian) -> (r: i16)
    requires
        at + 1 < data@.len(),
    ensures
        r == spec_word(data@, at as int, endian),
{
    let first = data[at];
    let second = data[at + 1];
    let word: u16 = match endian {
        PropEndian::Little => (second as u16) * 256 + (first as u16),
        PropEndian::Big => (first as u16) * 256 + (second as u16),
    };
    word as i16
}

/// Split a 16-bit word into its two stored bytes.
pub fn word_bytes(value: i16, endian: PropEndian) -> (r: (u8, u8))
    ensures
        seq![r.0, r.1] == spec_word_bytes(value, endian),
{
    let u = value as u16;
    let low = (u % 256) as u8;
    let high = (u / 256) as u8;
    match endian {
        PropEndian::Little => (low, high),
        PropEndian::Big => (high, low),
    }
}

impl PropHeader {
    /// Parse the 12-byte header at the start of `data`.
    ///
    /// Fails only on a short buffer or on dimensions that cannot describe an
    /// image; a bad format bit pattern decodes as 8-bit.
    pub fn parse(data: &[u8]) -> (r: Result<Self, PropError>)
        ensures
            r == spec_parse_header(data@),
    {
        if data.len() < HEADER_LEN {
            return Err(PropError::HeaderTooShort { available: data.len() });
        }
        let endian = if data[1] == 0 {
            PropEndian::Little
        } else {
            PropEndian::Big
        };
        let header = PropHeader {
            width: read_word(data, 0, endian),
            height: read_word(data, 2, endian),
            h_offset: read_word(data, 4, endian),
            v_offset: read_word(data, 6, endian),
            script_offset: read_word(data, 8, endian),
            flags: read_word(data, 10, endian) as u16,
            endian,
        };
        match header.validate() {
            Ok(()) => Ok(header),
            Err(e) => Err(e),
        }
    }

    /// Reject dimensions that cannot describe a real image.
    pub fn validate(&self) -> (r: Result<(), PropError>)
        ensures
            r == (if dimensions_plausible(self.width, self.height) {
                Ok::<(), PropError>(())
            } else {
                Err(PropError::ImplausibleDimensions { width: self.width, height: self.height })
            }),
    {
        if self.width <= 0 || self.height <= 0 || self.width > MAX_DIMENSION || self.height
            > MAX_DIMENSION {
            return Err(PropError::ImplausibleDimensions { width: self.width, height: self.height });
        }
        Ok(())
    }

    /// `width * height` as a `u32`, or `ImageTooLarge` when the product is
    /// negative.
    pub fn pixel_count(&self) -> (r: Result<u32, PropError>)
        ensures
            r == (if self.width as int * self.height as int >= 0 {
                Ok::<u32, PropError>((self.width as int * self.height as int) as u32)
            } else {
                Err(PropError::ImageTooLarge { width: self.width, height: self.height })
            }),
    {
        let w = self.width as i32;
        let h = self.height as i32;
        assert(-32768 * 32768 <= w * h <= 32768 * 32768) by (nonlinear_arith)
            requires
                -32768 <= w <= 32767,
                -32768 <= h <= 32767,
        ;
        let product = w * h;
        if product >= 0 {
            Ok(product as u32)
        } else {
            Err(PropError::ImageTooLarge { width: self.width, height: self.height })
        }
    }

    /// Which pixel encoding this header selects.
    ///
    /// The order of the tests follows the reference client: the 16-bit marker,
    /// then S20, then 32-bit, then 20-bit, otherwise 8-bit.
    pub fn format(&self) -> (r: PropFormat)
        ensures
            r == spec_format(self.flags),
    {
        if self.flags & SIXTEEN_BIT_MASK == SIXTEEN_BIT_PATTERN {
            PropFormat::SixteenBit
        } else if self.flags & FLAG_FORMAT_S20BIT != 0 {
            PropFormat::S20Bit
        } else if self.flags & FLAG_FORMAT_32BIT != 0 {
            PropFormat::ThirtyTwoBit
        } else if self.flags & FLAG_FORMAT_20BIT != 0 {
            PropFormat::TwentyBit
        } else {
            PropFormat::EightBit
        }
    }

    /// `HEAD 0x02`.
    pub fn is_head(&self) -> (r: bool)
        ensures
            r == (self.flags & FLAG_HEAD != 0),
    {
        self.flags & FLAG_HEAD != 0
    }

    /// `GHOST 0x04`.
    pub fn is_ghost(&self) -> (r: bool)
        ensures
            r == (self.flags & FLAG_GHOST != 0),
    {
        self.flags & FLAG_GHOST != 0
    }

    /// `RARE 0x08`.
    pub fn is_rare(&self) -> (r: bool)
        ensures
            r == (self.flags & FLAG_RARE != 0),
    {
        self.flags & FLAG_RARE != 0
    }

    /// `ANIMATE 0x10`.
    pub fn is_animate(&self) -> (r: bool)
        ensures
            r == (self.flags & FLAG_ANIMATE != 0),
    {
        self.flags & FLAG_ANIMATE != 0
    }

    /// `BOUNCE 0x20` (also called `PALINDROME`).
    pub fn is_bounce(&self) -> (r: bool)
        ensures
            r == (self.flags & FLAG_BOUNCE != 0),
    {
        self.flags & FLAG_BOUNCE != 0
    }

    /// Serialise the header back to 12 bytes in its own byte order.
    pub fn encode(&self) -> (r: [u8; 12])
        ensures
            r@ == spec_encode_header(*self),
    {
        let (a0, a1) = word_bytes(self.width, self.endian);
        let (b0, b1) = word_bytes(self.height, self.endian);
        let (c0, c1) = word_bytes(self.h_offset, self.endian);
        let (d0, d1) = word_bytes(self.v_offset, self.endian);
        let (e0, e1) = word_bytes(self.script_offset, self.endian);
        let (f0, f1) = word_bytes(self.flags as i16, self.endian);
        let out = [a0, a1, b0, b1, c0, c1, d0, d1, e0, e1, f0, f1];
        assert(out@ =~= spec_encode_header(*self));
        out
    }
}

/// Reading back the two bytes a word was stored as gives the word.
pub proof fn lemma_word_round_trip(value: i16, endian: PropEndian)
    ensures
        spec_word_u16(spec_word_bytes(value, endian)[0], spec_word_bytes(value, endian)[1], endian)
            as i16 == value,
{
    let u = value as u16;
    assert(((u / 256) as u8) as u16 == u / 256);
    assert(((u % 256) as u8) as u16 == u % 256);
    assert(((value as u16) as i16) == value) by (bit_vector);
}

/// Encoding a header and parsing the bytes back gives the same header, for
/// every header with plausible dimensions whose byte order the sniff
/// recognises: a little-endian width must fit in its low byte (so `data[1]`
/// is zero) and a big-endian width must have a non-zero low byte.
pub proof fn lemma_header_encode_parse_round_trip(h: PropHeader)
    requires
        dimensions_plausible(h.width, h.height),
        h.endian == PropEndian::Little ==> h.width < 256,
        h.endian == PropEndian::Big ==> h.width % 256 != 0,
    ensures
        spec_parse_header(spec_encode_header(h)) == Ok::<PropHeader, PropError>(h),
{
    let data = spec_encode_header(h);
    assert(data.len() == 12);
    lemma_word_round_trip(h.width, h.endian);
    lemma_word_round_trip(h.height, h.endian);
    lemma_word_round_trip(h.h_offset, h.endian);
    lemma_word_round_trip(h.v_offset, h.endian);
    lemma_word_round_trip(h.script_offset, h.endian);
    lemma_word_round_trip(h.flags as i16, h.endian);
    let w = h.width;
    if h.endian == PropEndian::Little {
        assert((w as u16) == w);
    } else {
        assert((w as u16) == w);
    }
    assert(sniffed(data) == h.endian);
    let f = h.flags;
    assert((f as i16) as u16 == f) by (bit_vector);
    assert(header_fields(data, h.endian) == h);
}

} // verus!
