//! Exact transforms: flips, right-angle rotations and crops.
//!
//! Each is a pure function from one [`PropImage`] to another and an exact
//! byte permutation: no pixel is re-sampled, so alpha survives one to one and
//! four quarter turns return the original bytes and dimensions. Every function
//! checks the size it is about to emit against [`MAX_DIMENSION`] and
//! [`MAX_PIXELS`] and refuses rather than emit a prop the crate would reject.

use vstd::prelude::*;

use crate::error::{PropError, MAX_DIMENSION, MAX_PIXELS};
use crate::image::{ImageView, PropImage};

verus! {

/// The filter a resize uses.
#[derive(Debug, Clone, Copy, PartialEq, Eq, Structural)]
pub enum Resample {
    /// Copy the nearest source pixel. Exact colours and alpha; hard edges.
    Nearest,
    /// Average the four surrounding source pixels, weighted by distance, in
    /// premultiplied alpha. Smooth; the default.
    Bilinear,
}

impl Default for Resample {
    fn default() -> (r: Self)
        ensures
            r == Resample::Bilinear,
    {
        Resample::Bilinear
    }
}

/// The mask a shape crop keeps.
#[derive(Debug, Clone, Copy, PartialEq, Eq, Structural)]
pub enum CropShape {
    /// The whole square canvas.
    Square,
    /// The circle inscribed in the square canvas: everything outside it is
    /// cleared to transparent.
    Circle,
    /// The square with rounded corners; `radius` is in pixels and is clamped
    /// to half the side.
    Rounded {
        /// Corner radius in pixels.
        radius: u32,
    },
}

impl Default for CropShape {
    fn default() -> (r: Self)
        ensures
            r == CropShape::Square,
    {
        CropShape::Square
    }
}


/// Which exact quarter turn [`rotate`] performs.
#[derive(Debug, Clone, Copy, PartialEq, Eq, Structural)]
pub enum QuarterTurn {
    /// 90 degrees clockwise.
    Clockwise,
    /// 90 degrees counter-clockwise.
    CounterClockwise,
    /// 180 degrees; the same as two clockwise quarter turns.
    Half,
}

/// A pixel rectangle: top-left corner and size; right and bottom edges are
/// exclusive.
#[derive(Debug, Clone, Copy, PartialEq, Eq, Structural)]
pub struct CropRect {
    /// Left edge, in pixels.
    pub x: u32,
    /// Top edge, in pixels.
    pub y: u32,
    /// Width, in pixels.
    pub width: u32,
    /// Height, in pixels.
    pub height: u32,
}

impl CropRect {
    /// A rectangle from a corner and a size.
    pub fn new(x: u32, y: u32, width: u32, height: u32) -> (r: Self)
        ensures
            r == (CropRect { x, y, width, height }),
    {
        CropRect { x, y, width, height }
    }
}

/// A dimension as the `i16` an error carries, saturating.
pub open spec fn display_dim(v: u32) -> i16 {
    if v > i16::MAX as u32 {
        i16::MAX
    } else {
        v as i16
    }
}

/// Why a size cannot be emitted, if it cannot.
pub open spec fn dims_error(width: u32, height: u32) -> Option<PropError> {
    if width == 0 || height == 0 || width > MAX_DIMENSION as u32 || height > MAX_DIMENSION as u32 {
        Some(
            PropError::ImplausibleDimensions {
                width: display_dim(width),
                height: display_dim(height),
            },
        )
    } else if width as int * height as int > MAX_PIXELS {
        Some(PropError::ImageTooLarge { width: display_dim(width), height: display_dim(height) })
    } else {
        None
    }
}

/// Refuse a size the crate will not carry: zero, too wide or tall, or too
/// many pixels in total.
fn check_dims(width: u32, height: u32) -> (r: Result<(), PropError>)
    ensures
        match dims_error(width, height) {
            Some(e) => r == Err::<(), PropError>(e),
            None => r is Ok,
        },
{
    let dw: i16 = if width > i16::MAX as u32 {
        i16::MAX
    } else {
        width as i16
    };
    let dh: i16 = if height > i16::MAX as u32 {
        i16::MAX
    } else {
        height as i16
    };
    if width == 0 || height == 0 || width > MAX_DIMENSION as u32 || height > MAX_DIMENSION as u32 {
        return Err(PropError::ImplausibleDimensions { width: dw, height: dh });
    }
    assert((width as u64) * (height as u64) <= 4096 * 4096) by (nonlinear_arith)
        requires
            width <= 4096,
            height <= 4096,
    ;
    if (width as u64) * (height as u64) > MAX_PIXELS {
        return Err(PropError::ImageTooLarge { width: dw, height: dh });
    }
    Ok(())
}

/// The exact pixel moves this module performs.
#[derive(Debug, Clone, Copy, PartialEq, Eq, Structural)]
pub enum Move {
    /// Mirror left to right.
    FlipHorizontal,
    /// Mirror top to bottom.
    FlipVertical,
    /// Quarter turn clockwise.
    Clockwise,
    /// Quarter turn counter-clockwise.
    CounterClockwise,
    /// Half turn.
    Half,
    /// Cut out the rectangle whose corner is `(x0, y0)`.
    Crop,
}

/// Width of the image a move produces from a `w` x `h` source.
pub open spec fn out_width(m: Move, w: int, h: int, cw: int) -> int {
    match m {
        Move::Clockwise | Move::CounterClockwise => h,
        Move::Crop => cw,
        _ => w,
    }
}

/// The source byte that output byte `i` copies, for a `w` x `h` source (the
/// crop's corner is `(x0, y0)` and its width `cw`).
pub open spec fn source_byte(m: Move, w: int, h: int, x0: int, y0: int, cw: int, i: int) -> int {
    let ow = out_width(m, w, h, cw);
    let p = i / 4;
    let c = i % 4;
    let x = p % ow;
    let y = p / ow;
    let sp = match m {
        Move::FlipHorizontal => y * w + (w - 1 - x),
        Move::FlipVertical => (h - 1 - y) * w + x,
        Move::Clockwise => (h - 1 - x) * w + y,
        Move::CounterClockwise => x * w + (w - 1 - y),
        Move::Half => (h - 1 - y) * w + (w - 1 - x),
        Move::Crop => (y0 + y) * w + x0 + x,
    };
    sp * 4 + c
}

/// The bytes a move produces: `n` bytes, each copied from its source byte.
pub open spec fn moved(
    m: Move,
    src: ImageView,
    x0: int,
    y0: int,
    cw: int,
    n: int,
) -> Seq<u8> {
    Seq::new(
        n as nat,
        |i: int| src.rgba[source_byte(m, src.width as int, src.height as int, x0, y0, cw, i)],
    )
}

/// A pixel index splits into an in-range column and row.
proof fn lemma_split(p: int, ow: int, oh: int)
    requires
        ow > 0,
        0 <= p < ow * oh,
    ensures
        0 <= p % ow < ow,
        0 <= p / ow < oh,
        p == (p / ow) * ow + p % ow,
{
    vstd::arithmetic::div_mod::lemma_fundamental_div_mod(p, ow);
    assert(p == (p / ow) * ow + p % ow) by (nonlinear_arith)
        requires
            p == ow * (p / ow) + p % ow,
    ;
    assert(p / ow < oh) by (nonlinear_arith)
        requires
            ow > 0,
            0 <= p < ow * oh,
            p == (p / ow) * ow + p % ow,
            0 <= p % ow < ow,
    ;
    assert(p / ow >= 0) by (nonlinear_arith)
        requires
            ow > 0,
            p >= 0,
            p == (p / ow) * ow + p % ow,
            0 <= p % ow < ow,
    ;
}

/// A row and column inside a `w` x `h` grid name a pixel inside it.
proof fn lemma_cell(row: int, col: int, w: int, h: int)
    requires
        0 <= row < h,
        0 <= col < w,
    ensures
        0 <= row * w + col < w * h,
{
    assert(0 <= row * w + col < w * h) by (nonlinear_arith)
        requires
            0 <= row < h,
            0 <= col < w,
    ;
}

/// The size a move produces, and where its source pixels come from, fit the
/// source image.
pub open spec fn move_fits(m: Move, w: int, h: int, x0: int, y0: int, cw: int, ch: int) -> bool {
    match m {
        Move::Crop => 0 <= x0 && 0 <= y0 && x0 + cw <= w && y0 + ch <= h && cw > 0 && ch > 0,
        _ => w > 0 && h > 0,
    }
}

/// The height of the image a move produces.
pub open spec fn out_height(m: Move, w: int, h: int, ch: int) -> int {
    match m {
        Move::Clockwise | Move::CounterClockwise => w,
        Move::Crop => ch,
        _ => h,
    }
}

/// Every source byte a move reads lies inside the source.
proof fn lemma_source_in_bounds(
    m: Move,
    w: int,
    h: int,
    x0: int,
    y0: int,
    cw: int,
    ch: int,
    i: int,
)
    requires
        move_fits(m, w, h, x0, y0, cw, ch),
        0 <= i < out_width(m, w, h, cw) * out_height(m, w, h, ch) * 4,
    ensures
        0 <= source_byte(m, w, h, x0, y0, cw, i) < w * h * 4,
{
    let ow = out_width(m, w, h, cw);
    let oh = out_height(m, w, h, ch);
    let p = i / 4;
    let c = i % 4;
    assert(0 <= p < ow * oh) by (nonlinear_arith)
        requires
            0 <= i < ow * oh * 4,
            p == i / 4,
    ;
    lemma_split(p, ow, oh);
    let x = p % ow;
    let y = p / ow;
    let sp = match m {
        Move::FlipHorizontal => y * w + (w - 1 - x),
        Move::FlipVertical => (h - 1 - y) * w + x,
        Move::Clockwise => (h - 1 - x) * w + y,
        Move::CounterClockwise => x * w + (w - 1 - y),
        Move::Half => (h - 1 - y) * w + (w - 1 - x),
        Move::Crop => (y0 + y) * w + x0 + x,
    };
    match m {
        Move::FlipHorizontal => lemma_cell(y, w - 1 - x, w, h),
        Move::FlipVertical => lemma_cell(h - 1 - y, x, w, h),
        Move::Clockwise => lemma_cell(h - 1 - x, y, w, h),
        Move::CounterClockwise => lemma_cell(x, w - 1 - y, w, h),
        Move::Half => lemma_cell(h - 1 - y, w - 1 - x, w, h),
        Move::Crop => {
            assert(sp == (y0 + y) * w + (x0 + x)) by (nonlinear_arith)
                requires
                    sp == (y0 + y) * w + x0 + x,
            ;
            lemma_cell(y0 + y, x0 + x, w, h);
        },
    }
    assert(0 <= sp * 4 + c < w * h * 4) by (nonlinear_arith)
        requires
            0 <= sp < w * h,
            0 <= c < 4,
    ;
}

/// Copy every output byte from its source byte.
fn gather(image: &PropImage, m: Move, x0: u32, y0: u32, cw: u32, ch: u32) -> (r: Vec<u8>)
    requires
        image.wf(),
        move_fits(
            m,
            image@.width as int,
            image@.height as int,
            x0 as int,
            y0 as int,
            cw as int,
            ch as int,
        ),
        out_width(m, image@.width as int, image@.height as int, cw as int) <= MAX_DIMENSION,
        out_height(m, image@.width as int, image@.height as int, ch as int) <= MAX_DIMENSION,
    ensures
        r@ == moved(
            m,
            image@,
            x0 as int,
            y0 as int,
            cw as int,
            out_width(m, image@.width as int, image@.height as int, cw as int) * out_height(
                m,
                image@.width as int,
                image@.height as int,
                ch as int,
            ) * 4,
        ),
{
    let src = image.as_rgba();
    let _len = src.len();
    let w = image.width() as usize;
    let h = image.height() as usize;
    let ow: usize = match m {
        Move::Clockwise | Move::CounterClockwise => h,
        Move::Crop => cw as usize,
        _ => w,
    };
    let oh: usize = match m {
        Move::Clockwise | Move::CounterClockwise => w,
        Move::Crop => ch as usize,
        _ => h,
    };
    assert(ow * oh * 4 <= 4096 * 4096 * 4) by (nonlinear_arith)
        requires
            ow <= 4096,
            oh <= 4096,
    ;
    let n = ow * oh * 4;
    let ghost v = image@;
    let mut out: Vec<u8> = Vec::new();
    let mut i: usize = 0;
    while i < n
        invariant
            i <= n,
            n == ow * oh * 4,
            ow == out_width(m, w as int, h as int, cw as int),
            oh == out_height(m, w as int, h as int, ch as int),
            ow > 0,
            v == image@,
            w == v.width,
            h == v.height,
            src@ == v.rgba,
            src@.len() == w * h * 4,
            src@.len() <= usize::MAX,
            move_fits(m, w as int, h as int, x0 as int, y0 as int, cw as int, ch as int),
            out@ == moved(m, v, x0 as int, y0 as int, cw as int, i as int),
        decreases n - i,
    {
        proof {
            lemma_source_in_bounds(m, w as int, h as int, x0 as int, y0 as int, cw as int, ch as int, i as int);
            lemma_split((i / 4) as int, ow as int, oh as int);
        }
        let p = i / 4;
        let c = i % 4;
        let x = p % ow;
        let y = p / ow;
        let sp: usize = match m {
            Move::FlipHorizontal => y * w + (w - 1 - x),
            Move::FlipVertical => (h - 1 - y) * w + x,
            Move::Clockwise => (h - 1 - x) * w + y,
            Move::CounterClockwise => x * w + (w - 1 - y),
            Move::Half => (h - 1 - y) * w + (w - 1 - x),
            Move::Crop => (y0 as usize + y) * w + x0 as usize + x,
        };
        let at = sp * 4 + c;
        out.push(src[at]);
        proof {
            assert(out@ =~= moved(m, v, x0 as int, y0 as int, cw as int, i as int + 1));
        }
        i = i + 1;
    }
    out
}

/// The outcome of a move: the refusal for an unemittable size, or the moved
/// image.
pub open spec fn move_result(
    m: Move,
    src: ImageView,
    x0: int,
    y0: int,
    cw: u32,
    ch: u32,
    r: Result<PropImage, PropError>,
) -> bool {
    let ow = out_width(m, src.width as int, src.height as int, cw as int);
    let oh = out_height(m, src.width as int, src.height as int, ch as int);
    match dims_error(ow as u32, oh as u32) {
        Some(e) => r == Err::<PropImage, PropError>(e),
        None => r matches Ok(img) && img.wf() && img@ == (ImageView {
            width: ow as u32,
            height: oh as u32,
            rgba: moved(m, src, x0, y0, cw as int, ow * oh * 4),
        }),
    }
}

/// Run one move after checking the size it emits.
fn apply_move(image: &PropImage, m: Move, x0: u32, y0: u32, cw: u32, ch: u32) -> (r: Result<
    PropImage,
    PropError,
>)
    requires
        image.wf(),
        m == Move::Crop ==> x0 as int + cw as int <= image@.width && y0 as int + ch as int
            <= image@.height,
    ensures
        move_result(m, image@, x0 as int, y0 as int, cw, ch, r),
{
    let w = image.width();
    let h = image.height();
    let (ow, oh) = match m {
        Move::Clockwise | Move::CounterClockwise => (h, w),
        Move::Crop => (cw, ch),
        _ => (w, h),
    };
    match check_dims(ow, oh) {
        Err(e) => {
            return Err(e);
        },
        Ok(()) => {},
    }
    let bytes = gather(image, m, x0, y0, cw, ch);
    match PropImage::from_rgba(ow, oh, bytes) {
        Ok(img) => Ok(img),
        Err(e) => Err(e),
    }
}

/// Mirror the image left-to-right. Exact: pixels are moved, never sampled.
pub fn flip_horizontal(image: &PropImage) -> (r: Result<PropImage, PropError>)
    requires
        image.wf(),
    ensures
        move_result(Move::FlipHorizontal, image@, 0, 0, 0, 0, r),
{
    apply_move(image, Move::FlipHorizontal, 0, 0, 0, 0)
}

/// Mirror the image top-to-bottom. Exact: pixels are moved, never sampled.
pub fn flip_vertical(image: &PropImage) -> (r: Result<PropImage, PropError>)
    requires
        image.wf(),
    ensures
        move_result(Move::FlipVertical, image@, 0, 0, 0, 0, r),
{
    apply_move(image, Move::FlipVertical, 0, 0, 0, 0)
}

/// Rotate 90 degrees clockwise; the result is `height` x `width`.
pub fn rotate_cw(image: &PropImage) -> (r: Result<PropImage, PropError>)
    requires
        image.wf(),
    ensures
        move_result(Move::Clockwise, image@, 0, 0, 0, 0, r),
{
    apply_move(image, Move::Clockwise, 0, 0, 0, 0)
}

/// Rotate 90 degrees counter-clockwise; the result is `height` x `width`.
pub fn rotate_ccw(image: &PropImage) -> (r: Result<PropImage, PropError>)
    requires
        image.wf(),
    ensures
        move_result(Move::CounterClockwise, image@, 0, 0, 0, 0, r),
{
    apply_move(image, Move::CounterClockwise, 0, 0, 0, 0)
}

/// Rotate 180 degrees; the result keeps the source dimensions.
pub fn rotate_180(image: &PropImage) -> (r: Result<PropImage, PropError>)
    requires
        image.wf(),
    ensures
        move_result(Move::Half, image@, 0, 0, 0, 0, r),
{
    apply_move(image, Move::Half, 0, 0, 0, 0)
}

/// The move a quarter turn performs.
pub open spec fn turn_move(turn: QuarterTurn) -> Move {
    match turn {
        QuarterTurn::Clockwise => Move::Clockwise,
        QuarterTurn::CounterClockwise => Move::CounterClockwise,
        QuarterTurn::Half => Move::Half,
    }
}

/// Rotate by an exact right angle. Lossless: pixels are permuted, never
/// sampled.
pub fn rotate(image: &PropImage, turn: QuarterTurn) -> (r: Result<PropImage, PropError>)
    requires
        image.wf(),
    ensures
        move_result(turn_move(turn), image@, 0, 0, 0, 0, r),
{
    match turn {
        QuarterTurn::Clockwise => rotate_cw(image),
        QuarterTurn::CounterClockwise => rotate_ccw(image),
        QuarterTurn::Half => rotate_180(image),
    }
}

/// `a` clamped to at most `b`.
pub open spec fn at_most(a: int, b: int) -> int {
    if a < b {
        a
    } else {
        b
    }
}

/// The part of `rect` that lies inside a `w` x `h` image: corner and size.
pub open spec fn clipped(rect: CropRect, w: u32, h: u32) -> (int, int, int, int) {
    let x0 = at_most(rect.x as int, w as int);
    let y0 = at_most(rect.y as int, h as int);
    let x1 = at_most(at_most(rect.x + rect.width, u32::MAX as int), w as int);
    let y1 = at_most(at_most(rect.y + rect.height, u32::MAX as int), h as int);
    (x0, y0, if x1 > x0 {
        x1 - x0
    } else {
        0
    }, if y1 > y0 {
        y1 - y0
    } else {
        0
    })
}

/// What [`crop`] produces.
pub open spec fn crop_result(
    src: ImageView,
    rect: CropRect,
    r: Result<PropImage, PropError>,
) -> bool {
    let (x0, y0, cw, ch) = clipped(rect, src.width, src.height);
    move_result(Move::Crop, src, x0, y0, cw as u32, ch as u32, r)
}

/// Cut `rect` out of the image. The rectangle is clamped to the image first;
/// one that overlaps nothing is refused as a zero-size result.
pub fn crop(image: &PropImage, rect: CropRect) -> (r: Result<PropImage, PropError>)
    requires
        image.wf(),
    ensures
        crop_result(image@, rect, r),
{
    let width = image.width();
    let height = image.height();
    let x0 = if rect.x < width {
        rect.x
    } else {
        width
    };
    let y0 = if rect.y < height {
        rect.y
    } else {
        height
    };
    let xr = rect.x.saturating_add(rect.width);
    let x1 = if xr < width {
        xr
    } else {
        width
    };
    let yr = rect.y.saturating_add(rect.height);
    let y1 = if yr < height {
        yr
    } else {
        height
    };
    let cut_width = x1.saturating_sub(x0);
    let cut_height = y1.saturating_sub(y0);
    apply_move(image, Move::Crop, x0, y0, cut_width, cut_height)
}

/// The centred square [`crop_square`] cuts.
pub open spec fn square_of(w: u32, h: u32) -> CropRect {
    let side = if w < h {
        w
    } else {
        h
    };
    CropRect {
        x: ((w - side) / 2) as u32,
        y: ((h - side) / 2) as u32,
        width: side,
        height: side,
    }
}

/// Crop to the largest centred square; an odd difference leaves the extra
/// pixel on the right/bottom edge.
pub fn crop_square(image: &PropImage) -> (r: Result<PropImage, PropError>)
    requires
        image.wf(),
    ensures
        crop_result(image@, square_of(image@.width, image@.height), r),
{
    let width = image.width();
    let height = image.height();
    let side = if width < height {
        width
    } else {
        height
    };
    crop(image, CropRect::new((width - side) / 2, (height - side) / 2, side, side))
}

/// The image a whole-image move (a flip or a turn) makes of `src`.
pub open spec fn moved_view(m: Move, src: ImageView) -> ImageView {
    let ow = out_width(m, src.width as int, src.height as int, 0);
    let oh = out_height(m, src.width as int, src.height as int, 0);
    ImageView { width: ow as u32, height: oh as u32, rgba: moved(m, src, 0, 0, 0, ow * oh * 4) }
}

/// Byte `i` of a `w` x `h` image is channel `i % 4` of pixel `(x, y)`.
proof fn lemma_byte_parts(i: int, w: int, h: int)
    requires
        w > 0,
        0 <= i < w * h * 4,
    ensures
        i == ((i / 4) / w * w + (i / 4) % w) * 4 + i % 4,
        0 <= i % 4 < 4,
        0 <= (i / 4) % w < w,
        0 <= (i / 4) / w < h,
{
    vstd::arithmetic::div_mod::lemma_fundamental_div_mod(i, 4);
    assert(0 <= i / 4 < w * h) by (nonlinear_arith)
        requires
            0 <= i < w * h * 4,
            i == 4 * (i / 4) + i % 4,
            0 <= i % 4 < 4,
    ;
    lemma_split(i / 4, w, h);
}

/// Pixel `(a, b)` of a `w`-wide image, channel `c`, and its byte.
proof fn lemma_byte_of(a: int, b: int, c: int, w: int)
    requires
        w > 0,
        0 <= a < w,
        0 <= b,
        0 <= c < 4,
    ensures
        ((b * w + a) * 4 + c) / 4 == b * w + a,
        ((b * w + a) * 4 + c) % 4 == c,
        (b * w + a) % w == a,
        (b * w + a) / w == b,
{
    vstd::arithmetic::div_mod::lemma_fundamental_div_mod_converse((b * w + a) * 4 + c, 4, b * w + a, c);
    vstd::arithmetic::div_mod::lemma_fundamental_div_mod_converse(b * w + a, w, b, a);
}

/// Mirroring left-to-right twice gives the image back.
pub proof fn lemma_flip_horizontal_twice(src: ImageView)
    requires
        src.rgba.len() == src.width as int * src.height as int * 4,
    ensures
        moved_view(Move::FlipHorizontal, moved_view(Move::FlipHorizontal, src)) == src,
{
    let w = src.width as int;
    let h = src.height as int;
    let once = moved_view(Move::FlipHorizontal, src);
    let twice = moved_view(Move::FlipHorizontal, once);
    assert forall|i: int| 0 <= i < twice.rgba.len() implies twice.rgba[i] == src.rgba[i] by {
        if w > 0 {
            lemma_byte_parts(i, w, h);
            let (c, x, y) = (i % 4, (i / 4) % w, (i / 4) / w);
            let j = (y * w + (w - 1 - x)) * 4 + c;
            lemma_byte_of(w - 1 - x, y, c, w);
            lemma_cell(y, w - 1 - x, w, h);
            assert(twice.rgba[i] == once.rgba[j]);
            assert(j < w * h * 4) by (nonlinear_arith)
                requires
                    0 <= y * w + (w - 1 - x) < w * h,
                    j == (y * w + (w - 1 - x)) * 4 + c,
                    0 <= c < 4,
            ;
        } else {
            assert(w * h * 4 == 0);
        }
    }
    assert(twice.rgba =~= src.rgba);
}

/// Mirroring top-to-bottom twice gives the image back.
pub proof fn lemma_flip_vertical_twice(src: ImageView)
    requires
        src.rgba.len() == src.width as int * src.height as int * 4,
    ensures
        moved_view(Move::FlipVertical, moved_view(Move::FlipVertical, src)) == src,
{
    let w = src.width as int;
    let h = src.height as int;
    let once = moved_view(Move::FlipVertical, src);
    let twice = moved_view(Move::FlipVertical, once);
    assert forall|i: int| 0 <= i < twice.rgba.len() implies twice.rgba[i] == src.rgba[i] by {
        if w > 0 {
            lemma_byte_parts(i, w, h);
            let (c, x, y) = (i % 4, (i / 4) % w, (i / 4) / w);
            let j = ((h - 1 - y) * w + x) * 4 + c;
            lemma_byte_of(x, h - 1 - y, c, w);
            lemma_cell(h - 1 - y, x, w, h);
            assert(twice.rgba[i] == once.rgba[j]);
            assert(j < w * h * 4) by (nonlinear_arith)
                requires
                    0 <= (h - 1 - y) * w + x < w * h,
                    j == ((h - 1 - y) * w + x) * 4 + c,
                    0 <= c < 4,
            ;
        } else {
            assert(w * h * 4 == 0);
        }
    }
    assert(twice.rgba =~= src.rgba);
}

/// A half turn twice gives the image back.
pub proof fn lemma_half_turn_twice(src: ImageView)
    requires
        src.rgba.len() == src.width as int * src.height as int * 4,
    ensures
        moved_view(Move::Half, moved_view(Move::Half, src)) == src,
{
    let w = src.width as int;
    let h = src.height as int;
    let once = moved_view(Move::Half, src);
    let twice = moved_view(Move::Half, once);
    assert forall|i: int| 0 <= i < twice.rgba.len() implies twice.rgba[i] == src.rgba[i] by {
        if w > 0 {
            lemma_byte_parts(i, w, h);
            let (c, x, y) = (i % 4, (i / 4) % w, (i / 4) / w);
            let j = ((h - 1 - y) * w + (w - 1 - x)) * 4 + c;
            lemma_byte_of(w - 1 - x, h - 1 - y, c, w);
            lemma_cell(h - 1 - y, w - 1 - x, w, h);
            assert(twice.rgba[i] == once.rgba[j]);
            assert(j < w * h * 4) by (nonlinear_arith)
                requires
                    0 <= (h - 1 - y) * w + (w - 1 - x) < w * h,
                    j == ((h - 1 - y) * w + (w - 1 - x)) * 4 + c,
                    0 <= c < 4,
            ;
        } else {
            assert(w * h * 4 == 0);
        }
    }
    assert(twice.rgba =~= src.rgba);
}

/// A quarter turn clockwise, then one counter-clockwise, gives the image
/// back.
pub proof fn lemma_turn_and_back(src: ImageView)
    requires
        src.rgba.len() == src.width as int * src.height as int * 4,
    ensures
        moved_view(Move::CounterClockwise, moved_view(Move::Clockwise, src)) == src,
{
    let w = src.width as int;
    let h = src.height as int;
    let once = moved_view(Move::Clockwise, src);
    let twice = moved_view(Move::CounterClockwise, once);
    assert(once.width as int == h && once.height as int == w);
    assert(twice.width as int == w && twice.height as int == h);
    assert(twice.rgba.len() == w * h * 4);
    assert forall|i: int| 0 <= i < twice.rgba.len() implies twice.rgba[i] == src.rgba[i] by {
        if w > 0 && h > 0 {
            lemma_byte_parts(i, w, h);
            let (c, x, y) = (i % 4, (i / 4) % w, (i / 4) / w);
            // The counter-clockwise turn reads pixel (h - 1 - y, x) of the
            // h-wide turned image.
            let j = (x * h + (h - 1 - y)) * 4 + c;
            lemma_byte_of(h - 1 - y, x, c, h);
            lemma_cell(x, h - 1 - y, h, w);
            assert(twice.rgba[i] == once.rgba[j]);
            assert(j < h * w * 4) by (nonlinear_arith)
                requires
                    0 <= x * h + (h - 1 - y) < h * w,
                    j == (x * h + (h - 1 - y)) * 4 + c,
                    0 <= c < 4,
            ;
            // That pixel of the turned image came from (x, y) of the source.
            lemma_byte_of(x, y, c, w);
            assert(once.rgba[j] == src.rgba[(y * w + x) * 4 + c]);
        } else {
            assert(w * h * 4 == 0) by (nonlinear_arith)
                requires
                    w == 0 || h == 0,
            ;
        }
    }
    assert(twice.rgba =~= src.rgba);
}

/// Two quarter turns clockwise are a half turn.
pub proof fn lemma_two_turns_half(src: ImageView)
    requires
        src.rgba.len() == src.width as int * src.height as int * 4,
    ensures
        moved_view(Move::Clockwise, moved_view(Move::Clockwise, src)) == moved_view(Move::Half, src),
{
    let w = src.width as int;
    let h = src.height as int;
    let once = moved_view(Move::Clockwise, src);
    let twice = moved_view(Move::Clockwise, once);
    let half = moved_view(Move::Half, src);
    assert(once.width as int == h && once.height as int == w);
    assert(twice.width == half.width && twice.height == half.height);
    assert(twice.rgba.len() == w * h * 4);
    assert(half.rgba.len() == w * h * 4);
    assert forall|i: int| 0 <= i < twice.rgba.len() implies twice.rgba[i] == half.rgba[i] by {
        if w > 0 && h > 0 {
            lemma_byte_parts(i, w, h);
            let (c, x, y) = (i % 4, (i / 4) % w, (i / 4) / w);
            // The second turn reads pixel (y, w - 1 - x) of the h-wide turned
            // image.
            let j = ((w - 1 - x) * h + y) * 4 + c;
            lemma_byte_of(y, w - 1 - x, c, h);
            lemma_cell(w - 1 - x, y, h, w);
            assert(twice.rgba[i] == once.rgba[j]);
            assert(j < h * w * 4) by (nonlinear_arith)
                requires
                    0 <= (w - 1 - x) * h + y < h * w,
                    j == ((w - 1 - x) * h + y) * 4 + c,
                    0 <= c < 4,
            ;
            // That pixel came from (w - 1 - x, h - 1 - y) of the source.
            lemma_byte_of(w - 1 - x, h - 1 - y, c, w);
            assert(once.rgba[j] == src.rgba[((h - 1 - y) * w + (w - 1 - x)) * 4 + c]);
            assert(half.rgba[i] == src.rgba[((h - 1 - y) * w + (w - 1 - x)) * 4 + c]);
        } else {
            assert(w * h * 4 == 0) by (nonlinear_arith)
                requires
                    w == 0 || h == 0,
            ;
        }
    }
    assert(twice.rgba =~= half.rgba);
}

/// Four quarter turns clockwise give the image back.
pub proof fn lemma_four_turns(src: ImageView)
    requires
        src.rgba.len() == src.width as int * src.height as int * 4,
    ensures
        moved_view(
            Move::Clockwise,
            moved_view(Move::Clockwise, moved_view(Move::Clockwise, moved_view(Move::Clockwise, src))),
        ) == src,
{
    lemma_two_turns_half(src);
    let half = moved_view(Move::Half, src);
    assert(half.rgba.len() == half.width as int * half.height as int * 4);
    lemma_two_turns_half(half);
    lemma_half_turn_twice(src);
}

} // verus!
