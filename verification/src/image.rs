//! The decoded pixel buffer.
//!
//! Every decoder in [`crate::codec`] produces one of these: `RGBA8`, row-major,
//! top-down, tightly packed.

use vstd::prelude::*;

use crate::error::PropError;
use crate::png_codec::{png_encode_rgba, png_encoded};

verus! {

/// The abstract content of an image: its size and its RGBA bytes.
pub struct ImageView {
    /// Width in pixels.
    pub width: u32,
    /// Height in pixels.
    pub height: u32,
    /// The RGBA bytes, row-major, four per pixel.
    pub rgba: Seq<u8>,
}

/// A decoded prop image: 8 bits per channel, RGBA, row-major, top-down.
#[derive(Debug, Clone, PartialEq, Eq)]
pub struct PropImage {
    width: u32,
    height: u32,
    rgba: Vec<u8>,
}

impl View for PropImage {
    type V = ImageView;

    closed spec fn view(&self) -> ImageView {
        ImageView { width: self.width, height: self.height, rgba: self.rgba@ }
    }
}

/// One channel of a packed ARGB word: 0 red, 1 green, 2 blue, 3 alpha.
pub open spec fn argb_channel(word: u32, channel: int) -> u8 {
    if channel == 0 {
        (word >> 16u32) as u8
    } else if channel == 1 {
        (word >> 8u32) as u8
    } else if channel == 2 {
        word as u8
    } else {
        (word >> 24u32) as u8
    }
}

/// The RGBA bytes of a sequence of packed ARGB words.
pub open spec fn argb_to_rgba(words: Seq<u32>) -> Seq<u8> {
    Seq::new(words.len() * 4, |i: int| argb_channel(words[i / 4], i % 4))
}

/// The packed ARGB word of the RGBA pixel starting at byte `at`.
pub open spec fn rgba_word(rgba: Seq<u8>, at: int) -> u32 {
    ((rgba[at + 3] as u32) << 24u32) | ((rgba[at] as u32) << 16u32) | ((rgba[at + 1] as u32)
        << 8u32) | (rgba[at + 2] as u32)
}

/// The packed ARGB words of an RGBA byte sequence, one per whole pixel.
pub open spec fn rgba_to_argb(rgba: Seq<u8>) -> Seq<u32> {
    Seq::new(rgba.len() / 4, |i: int| rgba_word(rgba, i * 4))
}

/// Byte index of pixel `(x, y)` in an image `width` pixels wide.
pub open spec fn pixel_at(width: int, x: int, y: int) -> int {
    (y * width + x) * 4
}

/// The four bytes of pixel `(x, y)`.
pub open spec fn spec_pixel(v: ImageView, x: int, y: int) -> Seq<u8> {
    let at = pixel_at(v.width as int, x, y);
    v.rgba.subrange(at, at + 4)
}

/// An all-zero byte sequence.
pub open spec fn zeroes(len: nat) -> Seq<u8> {
    Seq::new(len, |i: int| 0u8)
}

impl PropImage {
    /// The buffer holds exactly four bytes per pixel.
    pub open spec fn wf(&self) -> bool {
        self@.rgba.len() == self@.width as int * self@.height as int * 4
    }

    /// Build an image from packed ARGB (`0xAARRGGBB`) words, one per pixel.
    pub fn from_argb(width: u32, height: u32, argb: &[u32]) -> (r: Self)
        requires
            argb@.len() == width as int * height as int,
        ensures
            r@ == (ImageView { width, height, rgba: argb_to_rgba(argb@) }),
            r.wf(),
    {
        let mut rgba: Vec<u8> = Vec::new();
        let mut i: usize = 0;
        while i < argb.len()
            invariant
                i <= argb@.len(),
                rgba@.len() == i * 4,
                forall|j: int| 0 <= j < i * 4 ==> rgba@[j] == argb_channel(argb@[j / 4], j % 4),
            decreases argb@.len() - i,
        {
            let word = argb[i];
            rgba.push((word >> 16u32) as u8);
            rgba.push((word >> 8u32) as u8);
            rgba.push(word as u8);
            rgba.push((word >> 24u32) as u8);
            i = i + 1;
        }
        assert(rgba@ =~= argb_to_rgba(argb@));
        PropImage { width, height, rgba }
    }

    /// Build an image from raw RGBA bytes.
    pub fn from_rgba(width: u32, height: u32, rgba: Vec<u8>) -> (r: Result<Self, PropError>)
        ensures
            width as int * height as int * 4 > usize::MAX ==> r == Err::<Self, PropError>(
                PropError::ImageTooLarge { width: width as i16, height: height as i16 },
            ),
            width as int * height as int * 4 <= usize::MAX && rgba@.len() != width as int
                * height as int * 4 ==> r == Err::<Self, PropError>(
                PropError::PayloadTooShort {
                    format: "RGBA image",
                    needed: (width as int * height as int * 4) as usize,
                    available: rgba@.len() as usize,
                },
            ),
            width as int * height as int * 4 <= usize::MAX && rgba@.len() == width as int
                * height as int * 4 ==> (r matches Ok(img) && img@ == (ImageView {
                width,
                height,
                rgba: rgba@,
            }) && img.wf()),
    {
        let w = width as usize;
        let h = height as usize;
        let px = match w.checked_mul(h) {
            Some(px) => px,
            None => {
                assert(w * h * 4 > usize::MAX) by (nonlinear_arith)
                    requires
                        w * h > usize::MAX,
                ;
                return Err(PropError::ImageTooLarge { width: width as i16, height: height as i16 });
            },
        };
        let expected = match px.checked_mul(4) {
            Some(e) => e,
            None => {
                return Err(PropError::ImageTooLarge { width: width as i16, height: height as i16 });
            },
        };
        if rgba.len() != expected {
            return Err(
                PropError::PayloadTooShort {
                    format: "RGBA image",
                    needed: expected,
                    available: rgba.len(),
                },
            );
        }
        Ok(PropImage { width, height, rgba })
    }

    /// An all-transparent image of the given size.
    pub fn transparent(width: u32, height: u32) -> (r: Self)
        requires
            width as int * height as int * 4 <= usize::MAX,
        ensures
            r@ == (ImageView { width, height, rgba: zeroes((width as int * height as int * 4) as nat) }),
            r.wf(),
    {
        let n = (width as usize) * (height as usize) * 4;
        let mut rgba: Vec<u8> = Vec::new();
        let mut i: usize = 0;
        while i < n
            invariant
                i <= n,
                rgba@.len() == i,
                forall|j: int| 0 <= j < i ==> rgba@[j] == 0u8,
            decreases n - i,
        {
            rgba.push(0u8);
            i = i + 1;
        }
        assert(rgba@ =~= zeroes(n as nat));
        PropImage { width, height, rgba }
    }

    /// A second image with the same size and pixels.
    pub fn duplicate(&self) -> (r: Self)
        ensures
            r@ == self@,
    {
        PropImage {
            width: self.width,
            height: self.height,
            rgba: crate::codec::thirtytwo::slice_to_vec(self.rgba.as_slice()),
        }
    }

    /// Image width in pixels.
    pub fn width(&self) -> (r: u32)
        ensures
            r == self@.width,
    {
        self.width
    }

    /// Image height in pixels.
    pub fn height(&self) -> (r: u32)
        ensures
            r == self@.height,
    {
        self.height
    }

    /// The raw RGBA bytes, `width * height * 4` of them.
    pub fn as_rgba(&self) -> (r: &[u8])
        ensures
            r@ == self@.rgba,
    {
        self.rgba.as_slice()
    }

    /// One pixel as `[r, g, b, a]`, or `None` when out of bounds.
    pub fn pixel(&self, x: u32, y: u32) -> (r: Option<[u8; 4]>)
        requires
            self.wf(),
        ensures
            (x < self@.width && y < self@.height) ==> (r matches Some(p) && p@ == spec_pixel(
                self@,
                x as int,
                y as int,
            )),
            !(x < self@.width && y < self@.height) ==> r is None,
    {
        if x >= self.width || y >= self.height {
            return None;
        }
        let len = self.rgba.len();
        proof {
            lemma_pixel_in_bounds(self.width as int, self.height as int, x as int, y as int);
            assert(len == self.rgba@.len());
            assert(y * self.width + x < self.width * self.height);
            assert((y * self.width + x) * 4 + 4 <= self.rgba@.len());
        }
        let at = ((y as usize) * (self.width as usize) + (x as usize)) * 4;
        let p = [self.rgba[at], self.rgba[at + 1], self.rgba[at + 2], self.rgba[at + 3]];
        assert(p@ =~= spec_pixel(self@, x as int, y as int));
        Some(p)
    }

    /// The image as an 8-bit RGBA PNG file, in memory.
    pub fn to_png_bytes(&self) -> (r: Result<Vec<u8>, PropError>)
        requires
            self.wf(),
        ensures
            match png_encoded(self@.width, self@.height, self@.rgba) {
                Some(b) => r matches Ok(v) && v@ == b,
                None => r matches Err(PropError::Png { .. }),
            },
    {
        match png_encode_rgba(self.width, self.height, self.rgba.as_slice()) {
            Ok(v) => Ok(v),
            Err(detail) => Err(PropError::Png { detail }),
        }
    }

    /// Re-interpret the image as packed ARGB words.
    pub fn to_argb(&self) -> (r: Vec<u32>)
        ensures
            r@ == rgba_to_argb(self@.rgba),
    {
        let mut out: Vec<u32> = Vec::new();
        let len = self.rgba.len();
        let n = len / 4;
        let mut i: usize = 0;
        while i < n
            invariant
                len == self@.rgba.len(),
                n == self@.rgba.len() / 4,
                i <= n,
                out@.len() == i,
                forall|j: int| 0 <= j < i ==> out@[j] == rgba_word(self@.rgba, j * 4),
            decreases n - i,
        {
            assert(i * 4 + 4 <= self.rgba@.len());
            let at = i * 4;
            let word = ((self.rgba[at + 3] as u32) << 24u32) | ((self.rgba[at] as u32) << 16u32)
                | ((self.rgba[at + 1] as u32) << 8u32) | (self.rgba[at + 2] as u32);
            out.push(word);
            i = i + 1;
        }
        assert(out@ =~= rgba_to_argb(self@.rgba));
        out
    }
}

/// Pixel `(x, y)` of a `width` x `height` image lies inside its buffer.
pub proof fn lemma_pixel_in_bounds(width: int, height: int, x: int, y: int)
    requires
        0 <= x < width,
        0 <= y < height,
    ensures
        0 <= pixel_at(width, x, y),
        pixel_at(width, x, y) + 4 <= width * height * 4,
        y * width + x < width * height,
{
    assert(y * width + x < width * height) by (nonlinear_arith)
        requires
            0 <= x < width,
            0 <= y < height,
    ;
    assert(0 <= y * width) by (nonlinear_arith)
        requires
            0 <= y,
            0 <= width,
    ;
}

/// Packing the four channels of a word back gives the word.
pub proof fn lemma_argb_channels_repack(word: u32)
    ensures
        ((argb_channel(word, 3) as u32) << 24u32) | ((argb_channel(word, 0) as u32) << 16u32)
            | ((argb_channel(word, 1) as u32) << 8u32) | (argb_channel(word, 2) as u32) == word,
{
    assert(((((word >> 24u32) as u8) as u32) << 24u32) | ((((word >> 16u32) as u8) as u32)
        << 16u32) | ((((word >> 8u32) as u8) as u32) << 8u32) | ((word as u8) as u32) == word)
        by (bit_vector);
}

/// Building an image from ARGB words and reading it back as ARGB words gives
/// the same words.
pub proof fn lemma_argb_round_trip(words: Seq<u32>)
    ensures
        rgba_to_argb(argb_to_rgba(words)) == words,
{
    let bytes = argb_to_rgba(words);
    assert forall|i: int| 0 <= i < words.len() implies #[trigger] rgba_to_argb(bytes)[i]
        == words[i] by {
        assert((i * 4) / 4 == i);
        assert((i * 4 + 1) / 4 == i && (i * 4 + 1) % 4 == 1);
        assert((i * 4 + 2) / 4 == i && (i * 4 + 2) % 4 == 2);
        assert((i * 4 + 3) / 4 == i && (i * 4 + 3) % 4 == 3);
        assert((i * 4) % 4 == 0);
        lemma_argb_channels_repack(words[i]);
    }
    assert(rgba_to_argb(bytes) =~= words);
}

} // verus!
