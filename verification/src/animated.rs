//! Animated / "big" props: reading them and rendering their first frame.
//!
//! A big prop is an ordinary prop whose header sets flag bit `0x0400` and
//! which carries, after a raw 44x44 S20 base image, a length-prefixed embedded
//! image file (see [`crate::prop_animated_recon`] for the layout). `0x0400`
//! alone means the embedded file is a still PNG; `0x0800` means it is an
//! animated WebP, and only those are multi-frame.
//!
//! The frame table (dimensions and timing) is exact. Frame 0 is always a
//! valid image: the embedded PNG for the still class, the 44x44 base still
//! for the animated class. Decoding the later WebP frames is left to the
//! application. This module only reads: [`AnimatedProp::to_blob`] rewrites a
//! blob it already decoded, and is not an authoring path.

use vstd::prelude::*;

use crate::error::{spec_message, PropError, MAX_PIXELS};
use crate::header::{spec_parse_header, PropHeader};
use crate::image::{ImageView, PropImage};
use crate::png_codec::{
    png_buffer_sized, png_encoded, png_frame, png_read_frame, png_read_size, png_size, PngColor,
    PngReadError,
};
use crate::codec::s20::spec_decode_s20;
use crate::prop_animated_recon::{
    big_prop_outcome, decode_big_prop, decoded_from, embedded_ok, encode_big_prop,
    spec_encode_big, spec_is_big_prop, spec_recon_message, u24_at, word32, BigImageDescriptor,
    BigProp, EmbeddedImage, ReconError, BASE_SIDE, BIG_FLAG_MASK, FLAG_WEBP, IMAGE_OFFSET,
};
use crate::prp::read::le_u32;
use crate::text::{push_decimal, push_str, spec_decimal};
use crate::tool::{expand_to_rgba, spec_expand};

verus! {

// ---------------------------------------------------------------------------
// Errors
// ---------------------------------------------------------------------------

/// Why an animated / big prop could not be read.
#[derive(Debug, Clone, PartialEq, Eq)]
pub enum AnimatedError {
    /// The container itself was malformed or not a big prop.
    Container(ReconError),
    /// A frame's PNG could not be decoded into pixels.
    Png { detail: String },
    /// A decoded image's dimensions were zero or beyond the crate's budget.
    ImageDimensions { width: u32, height: u32 },
}

/// What an animated-prop error says.
pub open spec fn spec_animated_message(e: AnimatedError) -> Seq<char> {
    match e {
        AnimatedError::Container(c) => "animated prop container: "@ + spec_recon_message(c),
        AnimatedError::Png { detail } => "embedded PNG: "@ + detail@,
        AnimatedError::ImageDimensions { width, height } => "embedded image dimensions "@
            + spec_decimal(width as nat) + "x"@ + spec_decimal(height as nat)
            + " are out of range"@,
    }
}

impl AnimatedError {
    /// The human-readable text of the error.
    pub fn message(&self) -> (r: String)
        ensures
            r@ == spec_animated_message(*self),
    {
        let mut out = String::new();
        match self {
            AnimatedError::Container(c) => {
                push_str(&mut out, "animated prop container: ");
                let m = c.message();
                push_str(&mut out, m.as_str());
            },
            AnimatedError::Png { detail } => {
                push_str(&mut out, "embedded PNG: ");
                push_str(&mut out, detail.as_str());
            },
            AnimatedError::ImageDimensions { width, height } => {
                push_str(&mut out, "embedded image dimensions ");
                push_decimal(&mut out, *width as u64);
                push_str(&mut out, "x");
                push_decimal(&mut out, *height as u64);
                push_str(&mut out, " are out of range");
            },
        }
        assert(out@ =~= spec_animated_message(*self));
        out
    }
}

impl From<ReconError> for AnimatedError {
    fn from(e: ReconError) -> (r: Self) {
        AnimatedError::Container(e)
    }
}

impl vstd::std_specs::convert::FromSpecImpl<ReconError> for AnimatedError {
    open spec fn obeys_from_spec() -> bool {
        true
    }

    open spec fn from_spec(v: ReconError) -> Self {
        AnimatedError::Container(v)
    }
}

// ---------------------------------------------------------------------------
// Small helpers
// ---------------------------------------------------------------------------

/// A little-endian 24-bit value from the first three bytes.
pub fn u24(bytes: &[u8]) -> (r: u32)
    requires
        bytes@.len() >= 3,
    ensures
        r == u24_at(bytes@, 0),
{
    (bytes[0] as u32) + (bytes[1] as u32) * 256 + (bytes[2] as u32) * 65536
}

/// The PNG colour type packed samples of this many channels stand for.
pub open spec fn channel_color(channels: usize) -> PngColor {
    if channels == 1 {
        PngColor::Grayscale
    } else if channels == 2 {
        PngColor::GrayscaleAlpha
    } else {
        PngColor::Rgb
    }
}

/// Widen packed samples to RGBA.
///
/// `channels` is 1 (grey), 2 (grey+alpha) or 3 (RGB); alpha defaults to
/// opaque. A trailing partial pixel is dropped.
pub fn expand_channels(pixels: &[u8], channels: usize) -> (r: Vec<u8>)
    requires
        1 <= channels <= 3,
    ensures
        spec_expand(channel_color(channels), true, pixels@) == Some(r@),
{
    let color = if channels == 1 {
        PngColor::Grayscale
    } else if channels == 2 {
        PngColor::GrayscaleAlpha
    } else {
        PngColor::Rgb
    };
    match expand_to_rgba(color, true, pixels) {
        Some(v) => v,
        None => Vec::new(),
    }
}

// ---------------------------------------------------------------------------
// Embedded PNG decoding
// ---------------------------------------------------------------------------

/// Whether decoded dimensions are within the crate's budget: neither side
/// zero and at most [`MAX_PIXELS`] pixels.
pub open spec fn dims_in_budget(width: u32, height: u32) -> bool {
    width != 0 && height != 0 && width as int * height as int <= MAX_PIXELS as int
}

/// The text of the error for a palette frame the decoder did not expand.
pub open spec fn palette_detail() -> Seq<char> {
    "palette PNG was not expanded by the decoder"@
}

/// The image a decoded PNG frame becomes, or `None` when it cannot.
pub open spec fn frame_image(width: u32, height: u32, color: PngColor, samples: Seq<u8>) -> Option<
    ImageView,
> {
    match spec_expand(color, true, samples) {
        None => None,
        Some(rgba) => if width as int * height as int * 4 <= usize::MAX && rgba.len() == width as int
            * height as int * 4 {
            Some(ImageView { width, height, rgba })
        } else {
            None
        },
    }
}

/// What turning a decoded PNG frame into an image gives: the image, or the
/// error that says why not.
pub open spec fn frame_outcome(
    width: u32,
    height: u32,
    color: PngColor,
    samples: Seq<u8>,
    r: Result<PropImage, AnimatedError>,
) -> bool {
    if color == PngColor::Indexed {
        r matches Err(AnimatedError::Png { detail }) && detail@ == palette_detail()
    } else {
        let rgba = spec_expand(color, true, samples).unwrap();
        if width as int * height as int * 4 > usize::MAX {
            r matches Err(AnimatedError::Png { detail }) && detail@ == spec_message(
                PropError::ImageTooLarge { width: width as i16, height: height as i16 },
            )
        } else if rgba.len() != width as int * height as int * 4 {
            r matches Err(AnimatedError::Png { detail }) && detail@ == spec_message(
                PropError::PayloadTooShort {
                    format: "RGBA image",
                    needed: (width as int * height as int * 4) as usize,
                    available: rgba.len() as usize,
                },
            )
        } else {
            r matches Ok(img) && img@ == (ImageView { width, height, rgba }) && img.wf()
        }
    }
}

/// Turn a frame the PNG decoder produced (its size, colour type and 8-bit
/// samples) into an RGBA image.
pub fn png_frame_image(width: u32, height: u32, color: PngColor, samples: Vec<u8>) -> (r: Result<
    PropImage,
    AnimatedError,
>)
    ensures
        frame_outcome(width, height, color, samples@, r),
        r matches Ok(img) ==> frame_image(width, height, color, samples@) == Some(img@) && img.wf(),
        r is Err ==> frame_image(width, height, color, samples@) is None,
{
    let rgba = match color {
        PngColor::Rgba => samples,
        PngColor::Rgb => expand_channels(samples.as_slice(), 3),
        PngColor::Grayscale => expand_channels(samples.as_slice(), 1),
        PngColor::GrayscaleAlpha => expand_channels(samples.as_slice(), 2),
        PngColor::Indexed => {
            let detail = String::from_str("palette PNG was not expanded by the decoder");
            proof {
                reveal_strlit("palette PNG was not expanded by the decoder");
            }
            return Err(AnimatedError::Png { detail });
        },
    };
    assert(spec_expand(color, true, samples@) == Some(rgba@));
    match PropImage::from_rgba(width, height, rgba) {
        Ok(img) => Ok(img),
        Err(e) => Err(AnimatedError::Png { detail: e.message() }),
    }
}

/// The image an embedded PNG decodes to, or `None` when it does not.
pub open spec fn png_still(data: Seq<u8>) -> Option<ImageView> {
    match png_size(data) {
        None => None,
        Some(d) => if !dims_in_budget(d.0, d.1) || !png_buffer_sized(data) {
            None
        } else {
            match png_frame(data) {
                None => None,
                Some(f) => frame_image(f.0, f.1, f.2, f.3),
            }
        },
    }
}

/// Decode an embedded PNG into RGBA with the `png` crate.
///
/// Never panics on malformed input. The declared dimensions are checked
/// against the pixel budget before any pixel buffer is allocated.
pub fn decode_png(data: &[u8]) -> (r: Result<PropImage, AnimatedError>)
    ensures
        match png_size(data@) {
            None => r matches Err(AnimatedError::Png { .. }),
            Some(d) => if !dims_in_budget(d.0, d.1) || !png_buffer_sized(data@) {
                r == Err::<PropImage, AnimatedError>(
                    AnimatedError::ImageDimensions { width: d.0, height: d.1 },
                )
            } else {
                match png_frame(data@) {
                    None => r matches Err(AnimatedError::Png { .. }),
                    Some(f) => frame_outcome(f.0, f.1, f.2, f.3, r),
                }
            },
        },
        r matches Ok(img) ==> png_still(data@) == Some(img@) && img.wf(),
        r is Err ==> png_still(data@) is None,
{
    let (width, height) = match png_read_size(data) {
        Ok(d) => d,
        Err(detail) => {
            return Err(AnimatedError::Png { detail });
        },
    };
    assert((width as u64) * (height as u64) <= u64::MAX) by (nonlinear_arith)
        requires
            width <= u32::MAX,
            height <= u32::MAX,
    ;
    if width == 0 || height == 0 || (width as u64) * (height as u64) > MAX_PIXELS {
        return Err(AnimatedError::ImageDimensions { width, height });
    }
    match png_read_frame(data) {
        Ok((fw, fh, color, samples)) => png_frame_image(fw, fh, color, samples),
        Err(PngReadError::BufferSize) => Err(AnimatedError::ImageDimensions { width, height }),
        Err(PngReadError::Decode(detail)) => Err(AnimatedError::Png { detail }),
    }
}

// ---------------------------------------------------------------------------
// The frame table
// ---------------------------------------------------------------------------

/// One frame of the container's frame table.
///
/// `width`/`height`/`duration_ms` are what the embedded file declares.
/// `decoded` says whether [`AnimatedProp::decode_frame`] can return this
/// frame's pixels: true for the still-PNG class and for frame 0 of the
/// animated-WebP class, false for the later WebP frames.
#[derive(Debug, Clone, Copy, PartialEq, Eq, Structural)]
pub struct FrameInfo {
    /// Zero-based frame index, in playback order.
    pub index: usize,
    /// Declared frame width in pixels.
    pub width: u32,
    /// Declared frame height in pixels.
    pub height: u32,
    /// Display duration in milliseconds (0 for the still-PNG class).
    pub duration_ms: u32,
    /// Whether [`AnimatedProp::decode_frame`] yields pixels for this frame.
    pub decoded: bool,
}

/// The bytes of a four-character chunk name.
pub open spec fn tag_bytes(a: u8, b: u8, c: u8, d: u8) -> Seq<u8> {
    seq![a, b, c, d]
}

/// Walk a WebP's chunks from `i` on, collecting each `ANMF` frame's width,
/// height and duration; `None` when a chunk runs past the end.
pub open spec fn meta_walk(data: Seq<u8>, i: int, acc: Seq<(u32, u32, u32)>) -> Option<
    Seq<(u32, u32, u32)>,
>
    decreases data.len() + 1 - i,
{
    if i < 0 || i + 8 > data.len() {
        Some(acc)
    } else {
        let size = le_u32(data, i + 4) as int;
        let end = i + 8 + size;
        if end > data.len() {
            None
        } else {
            let next = if data.subrange(i, i + 4) == tag_bytes(0x41, 0x4E, 0x4D, 0x46) && size >= 16 {
                acc.push(
                    (
                        (1 + u24_at(data, i + 14)) as u32,
                        (1 + u24_at(data, i + 17)) as u32,
                        u24_at(data, i + 20),
                    ),
                )
            } else {
                acc
            };
            meta_walk(data, end + size % 2, next)
        }
    }
}

/// The per-frame metadata a RIFF/WEBP file's `ANMF` chunks declare, in
/// order, or `None` on any structural problem.
pub open spec fn webp_frame_meta(data: Seq<u8>) -> Option<Seq<(u32, u32, u32)>> {
    if data.len() < 12 || data.subrange(0, 4) != tag_bytes(0x52, 0x49, 0x46, 0x46) || data.subrange(
        8,
        12,
    ) != tag_bytes(0x57, 0x45, 0x42, 0x50) {
        None
    } else {
        meta_walk(data, 12, Seq::empty())
    }
}

fn tag_at(data: &[u8], at: usize, a: u8, b: u8, c: u8, d: u8) -> (r: bool)
    requires
        at + 4 <= data@.len(),
    ensures
        r == (data@.subrange(at as int, at as int + 4) == tag_bytes(a, b, c, d)),
{
    let r = data[at] == a && data[at + 1] == b && data[at + 2] == c && data[at + 3] == d;
    proof {
        let t = data@.subrange(at as int, at as int + 4);
        if r {
            assert(t =~= tag_bytes(a, b, c, d));
        } else if t == tag_bytes(a, b, c, d) {
            assert(t[0] == a && t[1] == b && t[2] == c && t[3] == d);
        }
    }
    r
}

/// Walk a RIFF/WEBP container's `ANMF` chunks, in order, reading each
/// frame's width and height (stored as `size - 1`) and duration.
pub fn parse_webp_frame_meta(data: &[u8]) -> (r: Option<Vec<(u32, u32, u32)>>)
    ensures
        match webp_frame_meta(data@) {
            None => r is None,
            Some(m) => r matches Some(v) && v@ == m,
        },
{
    if data.len() < 12 || !tag_at(data, 0, 0x52, 0x49, 0x46, 0x46) || !tag_at(
        data,
        8,
        0x57,
        0x45,
        0x42,
        0x50,
    ) {
        return None;
    }
    let len = data.len();
    let mut frames: Vec<(u32, u32, u32)> = Vec::new();
    let mut i: u128 = 12;
    assert(webp_frame_meta(data@) == meta_walk(data@, 12, Seq::empty()));
    while i + 8 <= len as u128
        invariant
            len == data@.len(),
            12 <= i <= len + 1,
            webp_frame_meta(data@) == meta_walk(data@, 12, Seq::empty()),
            meta_walk(data@, 12, Seq::empty()) == meta_walk(data@, i as int, frames@),
        decreases len + 1 - i,
    {
        let at = i as usize;
        let size = crate::prp::read::word_u32(data, at + 4) as u128;
        let end = i + 8 + size;
        if end > len as u128 {
            return None;
        }
        let payload = at + 8;
        if tag_at(data, at, 0x41, 0x4E, 0x4D, 0x46) && size >= 16 {
            let width = 1 + u24(&data[payload + 6..payload + 9]);
            let height = 1 + u24(&data[payload + 9..payload + 12]);
            let duration = u24(&data[payload + 12..payload + 15]);
            proof {
                assert(data@.subrange(payload + 6, payload + 9)[0] == data@[payload + 6]);
            }
            frames.push((width, height, duration));
        }
        i = end + size % 2;
    }
    Some(frames)
}

/// The frame a WebP's table holds at `index`: the `ANMF` metadata when it
/// was read, else the canvas and the container's own duration (0 past its
/// end).
pub open spec fn webp_frame_at(
    canvas_width: u32,
    canvas_height: u32,
    durations: Seq<u32>,
    meta: Option<Seq<(u32, u32, u32)>>,
    index: int,
) -> FrameInfo {
    let (width, height, duration_ms) = match meta {
        Some(m) => if index < m.len() {
            m[index]
        } else {
            (canvas_width, canvas_height, if index < durations.len() { durations[index] } else { 0 })
        },
        None => (canvas_width, canvas_height, if index < durations.len() { durations[index] } else { 0 }),
    };
    FrameInfo { index: index as usize, width, height, duration_ms, decoded: index == 0 }
}

/// The frame table of a container: one decoded frame for a still PNG, one
/// per declared frame for an animated WebP.
pub open spec fn spec_frames(container: BigProp) -> Seq<FrameInfo> {
    match container.embedded {
        EmbeddedImage::Png { width, height } => seq![
            FrameInfo { index: 0, width, height, duration_ms: 0, decoded: true },
        ],
        EmbeddedImage::AnimatedWebp(anim) => Seq::new(
            anim.frame_count as nat,
            |i: int|
                webp_frame_at(
                    anim.canvas_width,
                    anim.canvas_height,
                    anim.frame_durations_ms@,
                    webp_frame_meta(container.image@),
                    i,
                ),
        ),
    }
}

/// Build the frame table from the embedded file's own metadata.
pub fn build_frames(container: &BigProp) -> (r: Vec<FrameInfo>)
    ensures
        r@ == spec_frames(*container),
{
    match &container.embedded {
        EmbeddedImage::Png { width, height } => {
            let mut v: Vec<FrameInfo> = Vec::new();
            v.push(FrameInfo { index: 0, width: *width, height: *height, duration_ms: 0, decoded: true });
            assert(v@ =~= spec_frames(*container));
            v
        },
        EmbeddedImage::AnimatedWebp(anim) => {
            let count = anim.frame_count as usize;
            let declared = parse_webp_frame_meta(container.image.as_slice());
            let ghost meta = webp_frame_meta(container.image@);
            let mut frames: Vec<FrameInfo> = Vec::new();
            let mut index: usize = 0;
            while index < count
                invariant
                    count == anim.frame_count as usize,
                    index <= count,
                    container.embedded == EmbeddedImage::AnimatedWebp(*anim),
                    meta == webp_frame_meta(container.image@),
                    match meta {
                        None => declared is None,
                        Some(m) => declared matches Some(v) && v@ == m,
                    },
                    frames@.len() == index,
                    forall|j: int|
                        0 <= j < index ==> frames@[j] == webp_frame_at(
                            anim.canvas_width,
                            anim.canvas_height,
                            anim.frame_durations_ms@,
                            meta,
                            j,
                        ),
                decreases count - index,
            {
                let mut width = anim.canvas_width;
                let mut height = anim.canvas_height;
                let mut duration_ms: u32 = if index < anim.frame_durations_ms.len() {
                    anim.frame_durations_ms[index]
                } else {
                    0
                };
                match &declared {
                    Some(metas) => {
                        if index < metas.len() {
                            let m = metas[index];
                            width = m.0;
                            height = m.1;
                            duration_ms = m.2;
                        }
                    },
                    None => {},
                }
                frames.push(FrameInfo { index, width, height, duration_ms, decoded: index == 0 });
                index = index + 1;
            }
            assert(frames@ =~= spec_frames(*container));
            frames
        },
    }
}

// ---------------------------------------------------------------------------
// The decoded prop
// ---------------------------------------------------------------------------

/// The sum of durations, stopping at `u32::MAX` rather than wrapping.
pub open spec fn saturating_total(durations: Seq<u32>) -> u32
    decreases durations.len(),
{
    if durations.len() == 0 {
        0
    } else {
        let s = saturating_total(durations.drop_last()) as int + durations.last() as int;
        if s > u32::MAX {
            u32::MAX
        } else {
            s as u32
        }
    }
}

/// The pixels [`AnimatedProp::decode_frame`] yields for a frame, or `None`.
pub open spec fn spec_decode_frame(c: BigProp, index: int) -> Option<ImageView> {
    if index < 0 || index >= spec_frames(c).len() || index != 0 {
        None
    } else {
        match c.embedded {
            EmbeddedImage::Png { .. } => png_still(c.image@),
            EmbeddedImage::AnimatedWebp(_) => Some(c.base_image@),
        }
    }
}

/// Frame 0's pixels: the decoded frame when there is one, else the base
/// still.
pub open spec fn spec_frame_zero(c: BigProp) -> ImageView {
    match spec_decode_frame(c, 0) {
        Some(v) => v,
        None => c.base_image@,
    }
}

/// A decoded big prop: the container, its frame table and its renderable
/// first frame.
///
/// A record that parses as a container is always representable, with at
/// least frame 0 renderable.
#[derive(Debug)]
pub struct AnimatedProp {
    container: BigProp,
    frames: Vec<FrameInfo>,
}

impl AnimatedProp {
    /// The frame table is the container's.
    #[verifier::type_invariant]
    spec fn frames_match(self) -> bool {
        &&& self.frames@ == spec_frames(self.container)
        &&& self.container.base_image.wf()
    }

    /// The decoded container.
    pub closed spec fn big(self) -> BigProp {
        self.container
    }

    /// Decode a big-prop blob (bag prefix already stripped).
    ///
    /// Fails only when the record is not a big prop or its fixed prefix is
    /// unusable; an animated WebP whose pixels the application must decode
    /// still decodes here.
    pub fn decode(data: &[u8]) -> (r: Result<Self, AnimatedError>)
        ensures
            match r {
                Ok(p) => big_prop_outcome(data@, Ok(p.big())),
                Err(AnimatedError::Container(e)) => big_prop_outcome(data@, Err(e)),
                Err(_) => false,
            },
    {
        match decode_big_prop(data) {
            Ok(container) => {
                let frames = build_frames(&container);
                Ok(AnimatedProp { container, frames })
            },
            Err(e) => Err(AnimatedError::Container(e)),
        }
    }

    /// Whether the embedded file is an animated WebP (genuinely
    /// multi-frame). False for the still-PNG class.
    pub fn is_animated(&self) -> (r: bool)
        ensures
            r == (self.big().embedded is AnimatedWebp),
    {
        self.container.is_animated()
    }

    /// Number of frames the container declares: 1 for a still PNG, the
    /// `ANMF` count for an animated WebP.
    pub fn frame_count(&self) -> (r: usize)
        ensures
            r == spec_frames(self.big()).len(),
    {
        proof {
            use_type_invariant(self);
        }
        self.frames.len()
    }

    /// The frame table, in playback order.
    pub fn frame_infos(&self) -> (r: &[FrameInfo])
        ensures
            r@ == spec_frames(self.big()),
    {
        proof {
            use_type_invariant(self);
        }
        self.frames.as_slice()
    }

    /// One frame's declared metadata, or `None` when `index` is past the end.
    pub fn frame_info(&self, index: usize) -> (r: Option<FrameInfo>)
        ensures
            index < spec_frames(self.big()).len() ==> r == Some(spec_frames(self.big())[index as int]),
            index >= spec_frames(self.big()).len() ==> r is None,
    {
        proof {
            use_type_invariant(self);
        }
        if index < self.frames.len() {
            Some(self.frames[index])
        } else {
            None
        }
    }

    /// Per-frame display durations, in playback order.
    pub fn frame_durations_ms(&self) -> (r: Vec<u32>)
        ensures
            r@ == spec_frames(self.big()).map_values(|f: FrameInfo| f.duration_ms),
    {
        proof {
            use_type_invariant(self);
        }
        let mut out: Vec<u32> = Vec::new();
        let mut i: usize = 0;
        while i < self.frames.len()
            invariant
                i <= self.frames@.len(),
                out@ == self.frames@.subrange(0, i as int).map_values(|f: FrameInfo| f.duration_ms),
            decreases self.frames@.len() - i,
        {
            out.push(self.frames[i].duration_ms);
            i = i + 1;
            assert(out@ =~= self.frames@.subrange(0, i as int).map_values(|f: FrameInfo| f.duration_ms));
        }
        assert(self.frames@.subrange(0, i as int) =~= self.frames@);
        out
    }

    /// Total playback time the frame table describes, in milliseconds,
    /// saturating at `u32::MAX`.
    pub fn total_duration_ms(&self) -> (r: u32)
        ensures
            r == saturating_total(spec_frames(self.big()).map_values(|f: FrameInfo| f.duration_ms)),
    {
        let durations = self.frame_durations_ms();
        let mut sum: u32 = 0;
        let mut i: usize = 0;
        while i < durations.len()
            invariant
                i <= durations@.len(),
                sum == saturating_total(durations@.subrange(0, i as int)),
            decreases durations@.len() - i,
        {
            let d = durations[i];
            sum = match sum.checked_add(d) {
                Some(t) => t,
                None => u32::MAX,
            };
            i = i + 1;
            assert(durations@.subrange(0, i as int).drop_last() =~= durations@.subrange(0, i - 1));
        }
        assert(durations@.subrange(0, i as int) =~= durations@);
        sum
    }

    /// The animated WebP's loop count (`0` = forever), or 0 for the still
    /// class.
    pub fn loop_count(&self) -> (r: u16)
        ensures
            r == (match self.big().embedded {
                EmbeddedImage::AnimatedWebp(anim) => anim.loop_count,
                EmbeddedImage::Png { .. } => 0,
            }),
    {
        match &self.container.embedded {
            EmbeddedImage::AnimatedWebp(anim) => anim.loop_count,
            EmbeddedImage::Png { .. } => 0,
        }
    }

    /// The animated WebP's background colour, or 0 for the still class.
    pub fn background(&self) -> (r: u32)
        ensures
            r == (match self.big().embedded {
                EmbeddedImage::AnimatedWebp(anim) => anim.background,
                EmbeddedImage::Png { .. } => 0,
            }),
    {
        match &self.container.embedded {
            EmbeddedImage::AnimatedWebp(anim) => anim.background,
            EmbeddedImage::Png { .. } => 0,
        }
    }

    /// The image canvas the embedded file declares: the PNG's own
    /// dimensions, or the WebP's `VP8X` canvas.
    pub fn canvas(&self) -> (r: (u32, u32))
        ensures
            r == (match self.big().embedded {
                EmbeddedImage::Png { width, height } => (width, height),
                EmbeddedImage::AnimatedWebp(anim) => (anim.canvas_width, anim.canvas_height),
            }),
    {
        match &self.container.embedded {
            EmbeddedImage::Png { width, height } => (*width, *height),
            EmbeddedImage::AnimatedWebp(anim) => (anim.canvas_width, anim.canvas_height),
        }
    }

    /// The 44x44 base image: the container's built-in still.
    pub fn base_image(&self) -> (r: &PropImage)
        ensures
            r@ == self.big().base_image@,
    {
        &self.container.base_image
    }

    /// The plain-prop image a legacy client draws: the 44x44 base.
    pub fn legacy_image(&self) -> (r: &PropImage)
        ensures
            r@ == self.big().base_image@,
    {
        &self.container.base_image
    }

    /// The decoded embedded still for the PNG class; `None` for the
    /// animated class, whose pixels the application decodes.
    pub fn still_image(&self) -> (r: Option<PropImage>)
        ensures
            match self.big().embedded {
                EmbeddedImage::Png { .. } => match png_still(self.big().image@) {
                    Some(v) => r matches Some(img) && img@ == v,
                    None => r is None,
                },
                EmbeddedImage::AnimatedWebp(_) => r is None,
            },
    {
        match &self.container.embedded {
            EmbeddedImage::Png { .. } => match decode_png(self.container.image.as_slice()) {
                Ok(img) => Some(img),
                Err(_) => None,
            },
            EmbeddedImage::AnimatedWebp(_) => None,
        }
    }

    /// A specific frame's decoded pixels, when this crate can produce them.
    ///
    /// Frame 0 of the animated class is the base still; later frames of an
    /// animated WebP are `None`. Indexing past the end is `None`, never a
    /// panic.
    pub fn decode_frame(&self, index: usize) -> (r: Option<PropImage>)
        ensures
            match spec_decode_frame(self.big(), index as int) {
                Some(v) => r matches Some(img) && img@ == v,
                None => r is None,
            },
            r matches Some(img) ==> img.wf(),
    {
        proof {
            use_type_invariant(self);
        }
        if index >= self.frames.len() {
            return None;
        }
        match &self.container.embedded {
            EmbeddedImage::Png { .. } => {
                if index == 0 {
                    match decode_png(self.container.image.as_slice()) {
                        Ok(img) => Some(img),
                        Err(_) => None,
                    }
                } else {
                    None
                }
            },
            EmbeddedImage::AnimatedWebp(_) => {
                if index == 0 {
                    Some(self.container.base_image.duplicate())
                } else {
                    None
                }
            },
        }
    }

    /// Frame 0's pixels, always a valid image: the embedded PNG decoded to
    /// RGBA for the still class, the 44x44 base still for the animated
    /// class (and for a still whose PNG does not decode).
    pub fn frame_zero(&self) -> (r: PropImage)
        ensures
            r@ == spec_frame_zero(self.big()),
            r.wf(),
    {
        proof {
            use_type_invariant(self);
        }
        match self.decode_frame(0) {
            Some(img) => img,
            None => self.container.base_image.duplicate(),
        }
    }

    /// Frame 0 encoded as a PNG: what the bag catalog serves as a thumbnail.
    pub fn thumbnail_png(&self) -> (r: Result<Vec<u8>, AnimatedError>)
        ensures
            match png_encoded(
                spec_frame_zero(self.big()).width,
                spec_frame_zero(self.big()).height,
                spec_frame_zero(self.big()).rgba,
            ) {
                Some(b) => r matches Ok(v) && v@ == b,
                None => r matches Err(AnimatedError::Png { .. }),
            },
    {
        let frame = self.frame_zero();
        match frame.to_png_bytes() {
            Ok(v) => Ok(v),
            Err(e) => Err(AnimatedError::Png { detail: e.message() }),
        }
    }

    /// The outer 12-byte header, as parsed.
    pub fn header(&self) -> (r: PropHeader)
        ensures
            r == self.big().header,
    {
        self.container.header
    }

    /// The big-image placement descriptor.
    pub fn descriptor(&self) -> (r: &BigImageDescriptor)
        ensures
            *r == self.big().descriptor,
    {
        &self.container.descriptor
    }

    /// What kind of file is embedded, with its parsed metadata.
    pub fn embedded(&self) -> (r: &EmbeddedImage)
        ensures
            *r == self.big().embedded,
    {
        &self.container.embedded
    }

    /// The embedded file bytes, verbatim.
    pub fn embedded_bytes(&self) -> (r: &[u8])
        ensures
            r@ == self.big().image@,
    {
        self.container.image.as_slice()
    }

    /// The side of the base image in pixels (always 44).
    pub fn base_side(&self) -> (r: u32)
        ensures
            r == 44,
    {
        BASE_SIDE
    }

    /// Re-assemble the blob byte-exactly from the decoded parts: a rewrite
    /// of a blob already decoded, not an authoring encoder.
    pub fn to_blob(&self) -> (r: Vec<u8>)
        ensures
            r@ == spec_encode_big(
                self.big().header,
                self.big().base_raw@,
                self.big().image_len,
                self.big().descriptor,
                self.big().image@,
            ),
    {
        encode_big_prop(&self.container)
    }

    /// The container this was read from, for callers that need the raw base
    /// bytes or descriptor directly.
    pub fn container(&self) -> (r: &BigProp)
        ensures
            *r == self.big(),
    {
        &self.container
    }
}

// ---------------------------------------------------------------------------
// Blob-level helpers
// ---------------------------------------------------------------------------

/// Whether `data` (a prop blob, bag prefix already stripped) is a big prop.
///
/// Cheap: it parses the header and tests the container flag bits only.
pub fn is_big_prop(data: &[u8]) -> (r: bool)
    ensures
        r == spec_is_big_prop(data@),
{
    crate::prop_animated_recon::is_big_prop(data)
}

/// Whether a blob decodes as a big-prop container.
pub open spec fn big_readable(data: Seq<u8>) -> bool {
    &&& spec_parse_header(data) matches Ok(h)
    &&& h.flags & BIG_FLAG_MASK != 0
    &&& data.len() >= IMAGE_OFFSET
    &&& IMAGE_OFFSET + word32(data, 4852, h.endian) as int <= data.len()
    &&& embedded_ok(h.flags, data.subrange(4868, 4868 + word32(data, 4852, h.endian) as int))
}

/// The embedded file a readable big-prop blob carries.
pub open spec fn embedded_of(data: Seq<u8>) -> Seq<u8> {
    data.subrange(
        4868,
        4868 + word32(data, 4852, spec_parse_header(data).unwrap().endian) as int,
    )
}

/// The 44x44 base still a readable big-prop blob carries.
pub open spec fn base_of(data: Seq<u8>) -> ImageView {
    spec_decode_s20(data.subrange(12, 4852), 44, 44).unwrap()
}

/// Frame 0 of a readable big-prop blob: the embedded PNG's image for the
/// still class when it decodes, else the base still.
pub open spec fn frame_zero_of(data: Seq<u8>) -> ImageView {
    if spec_parse_header(data).unwrap().flags & FLAG_WEBP != 0 {
        base_of(data)
    } else {
        match png_still(embedded_of(data)) {
            Some(v) => v,
            None => base_of(data),
        }
    }
}

/// The thumbnail of a big-prop blob: frame 0 as a PNG, or `None` when the
/// blob is not a usable big prop or the encoder refuses the image.
pub open spec fn big_thumbnail(data: Seq<u8>) -> Option<Seq<u8>> {
    if !big_readable(data) {
        None
    } else {
        let v = frame_zero_of(data);
        png_encoded(v.width, v.height, v.rgba)
    }
}

/// A container decoded from a blob has the blob's frame 0.
proof fn lemma_frame_zero_of(data: Seq<u8>, c: BigProp)
    requires
        big_prop_outcome(data, Ok(c)),
    ensures
        big_readable(data),
        spec_frame_zero(c) == frame_zero_of(data),
        c.base_image@ == base_of(data),
{
    let h = spec_parse_header(data).unwrap();
    let len = word32(data, 4852, h.endian) as int;
    assert(decoded_from(c, data, h, len));
    assert(c.image@ == embedded_of(data));
}

/// Decode a big prop and return frame 0 as a PNG, or `None` when it is not
/// a usable big-prop record.
pub fn thumbnail_png(data: &[u8]) -> (r: Option<Vec<u8>>)
    ensures
        match big_thumbnail(data@) {
            Some(b) => r matches Some(v) && v@ == b,
            None => r is None,
        },
{
    match AnimatedProp::decode(data) {
        Ok(prop) => {
            proof {
                lemma_frame_zero_of(data@, prop.big());
            }
            match prop.thumbnail_png() {
                Ok(v) => Some(v),
                Err(_) => None,
            }
        },
        Err(_) => None,
    }
}

/// The image a plain decode should use for a big prop: the 44x44 base
/// still. `None` when the record is not a usable big prop.
pub fn legacy_image(data: &[u8]) -> (r: Option<PropImage>)
    ensures
        big_readable(data@) ==> (r matches Some(img) && img@ == base_of(data@)),
        !big_readable(data@) ==> r is None,
{
    match AnimatedProp::decode(data) {
        Ok(prop) => {
            proof {
                lemma_frame_zero_of(data@, prop.big());
            }
            Some(prop.base_image().duplicate())
        },
        Err(_) => None,
    }
}

} // verus!
