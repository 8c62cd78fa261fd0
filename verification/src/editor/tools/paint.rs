//! Paint tools on whole images: the colour picker, clearing, and brush and
//! eraser strokes stamped along an integer line.

use vstd::prelude::*;

use crate::image::{spec_pixel, zeroes, ImageView, PropImage};

verus! {

/// The smallest brush the tools accept.
pub const MIN_BRUSH_SIZE: u32 = 1;

/// The largest brush the tools accept, matching the panel's size slider.
pub const MAX_BRUSH_SIZE: u32 = 48;

/// Sample the colour at `(x, y)`, or `None` when the point is off the image.
pub fn pick_color(image: &PropImage, x: u32, y: u32) -> (r: Option<[u8; 4]>)
    requires
        image.wf(),
    ensures
        (x >= image@.width || y >= image@.height) ==> r is None,
        (x < image@.width && y < image@.height) ==> (r matches Some(p) && p@ == spec_pixel(
            image@,
            x as int,
            y as int,
        )),
{
    image.pixel(x, y)
}

/// A fully transparent image of the same size: "clear to transparent" at the
/// pixel level.
pub fn clear_pixels(image: &PropImage) -> (r: PropImage)
    requires
        image.wf(),
    ensures
        r@ == (ImageView {
            width: image@.width,
            height: image@.height,
            rgba: zeroes((image@.width * image@.height * 4) as nat),
        }),
        r.wf(),
{
    let _len = image.as_rgba().len();
    PropImage::transparent(image.width(), image.height())
}

// ---------------------------------------------------------------------------
// Strokes
// ---------------------------------------------------------------------------

/// Where the line walk stands: its position and its error term.
pub struct LineState {
    /// Column.
    pub x: int,
    /// Row.
    pub y: int,
    /// The error term.
    pub err: int,
}

/// `|v|`.
pub open spec fn abs_int(v: int) -> int {
    if v < 0 {
        -v
    } else {
        v
    }
}

/// The walk's first state: at `from`, with the error term `dx - dy`.
pub open spec fn line_start(from: (i32, i32), to: (i32, i32)) -> LineState {
    LineState {
        x: from.0 as int,
        y: from.1 as int,
        err: abs_int(to.0 - from.0) - abs_int(to.1 - from.1),
    }
}

/// One step of the integer line walk (Bresenham's, all octants).
pub open spec fn line_step(s: LineState, from: (i32, i32), to: (i32, i32)) -> LineState {
    let dx = abs_int(to.0 - from.0);
    let dy = abs_int(to.1 - from.1);
    let sx: int = if from.0 < to.0 { 1 } else { -1 };
    let sy: int = if from.1 < to.1 { 1 } else { -1 };
    let d = 2 * s.err;
    let a = if d > -dy { LineState { x: s.x + sx, y: s.y, err: s.err - dy } } else { s };
    if d < dx {
        LineState { x: a.x, y: a.y + sy, err: a.err + dx }
    } else {
        a
    }
}

/// The walk's state after `k` steps.
pub open spec fn line_at(from: (i32, i32), to: (i32, i32), k: nat) -> LineState
    decreases k,
{
    if k == 0 {
        line_start(from, to)
    } else {
        line_step(line_at(from, to, (k - 1) as nat), from, to)
    }
}

/// The most steps the walk takes: `dx + dy`.
pub open spec fn line_bound(from: (i32, i32), to: (i32, i32)) -> int {
    abs_int(to.0 - from.0) + abs_int(to.1 - from.1)
}

/// The step at which the walk stops: the first that stands on `to`, and at
/// most [`line_bound`].
pub open spec fn line_end(from: (i32, i32), to: (i32, i32), k: nat) -> nat
    decreases line_bound(from, to) - k,
{
    if k >= line_bound(from, to) || (line_at(from, to, k).x == to.0 && line_at(from, to, k).y
        == to.1) {
        k
    } else {
        line_end(from, to, k + 1)
    }
}

/// Whether `(px, py)` is inside the square stamped at `(x, y)`.
pub open spec fn in_stamp(px: int, py: int, x: int, y: int, lo: int, hi: int) -> bool {
    lo <= px - x < hi && lo <= py - y < hi
}

/// Whether `(px, py)` is covered by the stamps at the first `j` points of the
/// walk.
pub open spec fn covered(from: (i32, i32), to: (i32, i32), lo: int, hi: int, j: nat, px: int, py: int) -> bool
    decreases j,
{
    j > 0 && (covered(from, to, lo, hi, (j - 1) as nat, px, py) || in_stamp(
        px,
        py,
        line_at(from, to, (j - 1) as nat).x,
        line_at(from, to, (j - 1) as nat).y,
        lo,
        hi,
    ))
}

/// The stamp's side for a requested size: clamped to
/// [`MIN_BRUSH_SIZE`]..=[`MAX_BRUSH_SIZE`].
pub open spec fn stamp_side(size: u32) -> int {
    if size < MIN_BRUSH_SIZE {
        MIN_BRUSH_SIZE as int
    } else if size > MAX_BRUSH_SIZE {
        MAX_BRUSH_SIZE as int
    } else {
        size as int
    }
}

/// The first covered offset from a stamp's centre.
pub open spec fn stamp_lo(size: u32) -> int {
    -(stamp_side(size) / 2)
}

/// One past the last covered offset from a stamp's centre.
pub open spec fn stamp_hi(size: u32) -> int {
    stamp_side(size) / 2 + stamp_side(size) % 2
}

/// The bytes of an image with every pixel a stamp along the walk covers set
/// to `rgba`.
pub open spec fn stroked(v: ImageView, from: (i32, i32), to: (i32, i32), size: u32, rgba: Seq<u8>) -> Seq<u8> {
    Seq::new(
        v.rgba.len(),
        |b: int|
            if covered(
                from,
                to,
                stamp_lo(size),
                stamp_hi(size),
                line_end(from, to, 0) + 1,
                (b / 4) % (v.width as int),
                (b / 4) / (v.width as int),
            ) {
                rgba[b % 4]
            } else {
                v.rgba[b]
            },
    )
}

/// Whether byte `b` belongs to pixel `(px, py)` of a `width`-wide image.
pub open spec fn byte_of(b: int, width: int, px: int, py: int) -> bool {
    (b / 4) % width == px && (b / 4) / width == py
}

proof fn lemma_pixel_bytes(b: int, width: int, height: int, px: int, py: int)
    requires
        width > 0,
        0 <= b < width * height * 4,
        0 <= px < width,
        0 <= py < height,
    ensures
        byte_of(b, width, px, py) <==> ((py * width + px) * 4 <= b < (py * width + px) * 4 + 4),
{
    let p = b / 4;
    if (py * width + px) * 4 <= b < (py * width + px) * 4 + 4 {
        assert(p == py * width + px);
        vstd::arithmetic::div_mod::lemma_fundamental_div_mod_converse(p, width, py, px);
    }
    if byte_of(b, width, px, py) {
        vstd::arithmetic::div_mod::lemma_fundamental_div_mod(p, width);
        assert(p == width * py + px);
        assert(p == py * width + px) by (nonlinear_arith)
            requires
                p == width * py + px,
        ;
    }
}

proof fn lemma_byte_in_canvas(b: int, width: int, height: int)
    requires
        width > 0,
        height >= 0,
        0 <= b < width * height * 4,
    ensures
        0 <= (b / 4) % width < width,
        0 <= (b / 4) / width < height,
{
    let p = b / 4;
    assert(p < width * height);
    vstd::arithmetic::div_mod::lemma_fundamental_div_mod(p, width);
    let q = p / width;
    let r = p % width;
    assert(0 <= r < width);
    assert(q >= 0) by (nonlinear_arith)
        requires
            p == width * q + r,
            0 <= r < width,
            p >= 0,
            width > 0,
    ;
    assert(q < height) by (nonlinear_arith)
        requires
            p == width * q + r,
            0 <= r,
            p < width * height,
            width > 0,
    ;
}

/// Set the pixel `(px, py)` to `rgba` when it is on the canvas; off-canvas
/// points are clipped.
fn paint_pixel(bytes: &mut Vec<u8>, width: u32, height: u32, px: i64, py: i64, rgba: [u8; 4])
    requires
        old(bytes)@.len() == width as int * height as int * 4,
    ensures
        final(bytes)@.len() == old(bytes)@.len(),
        forall|b: int|
            0 <= b < old(bytes)@.len() ==> #[trigger] final(bytes)@[b] == if byte_of(
                b,
                width as int,
                px as int,
                py as int,
            ) {
                rgba@[b % 4]
            } else {
                old(bytes)@[b]
            },
{
    let ghost len = bytes@.len();
    if px < 0 || py < 0 || px >= width as i64 || py >= height as i64 {
        proof {
            assert forall|b: int| 0 <= b < len implies !byte_of(b, width as int, px as int, py as int) by {
                if width > 0 {
                    lemma_byte_in_canvas(b, width as int, height as int);
                } else {
                    assert(width as int * height as int * 4 == 0);
                }
            }
        }
        return;
    }
    let x = px as usize;
    let y = py as usize;
    let n = bytes.len();
    proof {
        assert((y * width + x) * 4 + 4 <= width * height * 4) by (nonlinear_arith)
            requires
                x < width,
                y < height,
        ;
        assert(y * width + x <= n);
    }
    let at = (y * width as usize + x) * 4;
    bytes.set(at, rgba[0]);
    bytes.set(at + 1, rgba[1]);
    bytes.set(at + 2, rgba[2]);
    bytes.set(at + 3, rgba[3]);
    proof {
        assert forall|b: int| 0 <= b < len implies #[trigger] bytes@[b] == if byte_of(
            b,
            width as int,
            px as int,
            py as int,
        ) {
            rgba@[b % 4]
        } else {
            old(bytes)@[b]
        } by {
            lemma_pixel_bytes(b, width as int, height as int, px as int, py as int);
        }
    }
}

/// Whether `(px, py)` is inside the part of the stamp at `(x, y)` painted
/// before row `r`, column `c`.
pub open spec fn stamp_part(px: int, py: int, x: int, y: int, lo: int, hi: int, r: int, c: int) -> bool {
    (lo <= py - y < r && lo <= px - x < hi) || (py - y == r && lo <= px - x < c)
}

/// Stamp the square `[lo, hi)` around `(x, y)`.
fn stamp_at(bytes: &mut Vec<u8>, width: u32, height: u32, x: i64, y: i64, lo: i64, hi: i64, rgba: [u8; 4])
    requires
        old(bytes)@.len() == width as int * height as int * 4,
        -24 <= lo <= 0 < hi <= 24,
        -0x10_0000_0000 <= x <= 0x10_0000_0000,
        -0x10_0000_0000 <= y <= 0x10_0000_0000,
    ensures
        final(bytes)@.len() == old(bytes)@.len(),
        forall|b: int|
            0 <= b < old(bytes)@.len() ==> #[trigger] final(bytes)@[b] == if in_stamp(
                (b / 4) % (width as int),
                (b / 4) / (width as int),
                x as int,
                y as int,
                lo as int,
                hi as int,
            ) {
                rgba@[b % 4]
            } else {
                old(bytes)@[b]
            },
{
    let ghost start = bytes@;
    let ghost w = width as int;
    let mut r = lo;
    while r < hi
        invariant
            lo <= r <= hi,
            -24 <= lo <= 0 < hi <= 24,
            -0x10_0000_0000 <= x <= 0x10_0000_0000,
            -0x10_0000_0000 <= y <= 0x10_0000_0000,
            w == width as int,
            bytes@.len() == start.len(),
            start.len() == width as int * height as int * 4,
            forall|b: int|
                0 <= b < start.len() ==> #[trigger] bytes@[b] == if stamp_part(
                    (b / 4) % w,
                    (b / 4) / w,
                    x as int,
                    y as int,
                    lo as int,
                    hi as int,
                    r as int,
                    lo as int,
                ) {
                    rgba@[b % 4]
                } else {
                    start[b]
                },
        decreases hi - r,
    {
        let mut c = lo;
        while c < hi
            invariant
                lo <= c <= hi,
                lo <= r < hi,
                -24 <= lo <= 0 < hi <= 24,
                -0x10_0000_0000 <= x <= 0x10_0000_0000,
                -0x10_0000_0000 <= y <= 0x10_0000_0000,
                w == width as int,
                bytes@.len() == start.len(),
                start.len() == width as int * height as int * 4,
                forall|b: int|
                    0 <= b < start.len() ==> #[trigger] bytes@[b] == if stamp_part(
                        (b / 4) % w,
                        (b / 4) / w,
                        x as int,
                        y as int,
                        lo as int,
                        hi as int,
                        r as int,
                        c as int,
                    ) {
                        rgba@[b % 4]
                    } else {
                        start[b]
                    },
            decreases hi - c,
        {
            let ghost before = bytes@;
            paint_pixel(bytes, width, height, x + c, y + r, rgba);
            proof {
                assert forall|b: int| 0 <= b < start.len() implies #[trigger] bytes@[b] == if stamp_part(
                    (b / 4) % w,
                    (b / 4) / w,
                    x as int,
                    y as int,
                    lo as int,
                    hi as int,
                    r as int,
                    c + 1,
                ) {
                    rgba@[b % 4]
                } else {
                    start[b]
                } by {
                    assert(before[b] == if stamp_part(
                        (b / 4) % w,
                        (b / 4) / w,
                        x as int,
                        y as int,
                        lo as int,
                        hi as int,
                        r as int,
                        c as int,
                    ) {
                        rgba@[b % 4]
                    } else {
                        start[b]
                    });
                }
            }
            c = c + 1;
        }
        r = r + 1;
    }
}

/// Stamp every point of the walk from `from` to `to`.
fn stamp_line(bytes: &mut Vec<u8>, width: u32, height: u32, from: (i32, i32), to: (i32, i32), lo: i64, hi: i64, rgba: [u8; 4])
    requires
        old(bytes)@.len() == width as int * height as int * 4,
        -24 <= lo <= 0 < hi <= 24,
    ensures
        final(bytes)@.len() == old(bytes)@.len(),
        forall|b: int|
            0 <= b < old(bytes)@.len() ==> #[trigger] final(bytes)@[b] == if covered(
                from,
                to,
                lo as int,
                hi as int,
                line_end(from, to, 0) + 1,
                (b / 4) % (width as int),
                (b / 4) / (width as int),
            ) {
                rgba@[b % 4]
            } else {
                old(bytes)@[b]
            },
{
    let ghost start = bytes@;
    let ghost w = width as int;
    let x0 = from.0 as i64;
    let y0 = from.1 as i64;
    let x1 = to.0 as i64;
    let y1 = to.1 as i64;
    let dx: i64 = if x1 >= x0 { x1 - x0 } else { x0 - x1 };
    let dy: i64 = if y1 >= y0 { y1 - y0 } else { y0 - y1 };
    let sx: i64 = if x0 < x1 { 1 } else { -1 };
    let sy: i64 = if y0 < y1 { 1 } else { -1 };
    let bound: i64 = dx + dy;
    let mut x = x0;
    let mut y = y0;
    let mut err: i128 = (dx - dy) as i128;
    let mut k: i64 = 0;
    assert(line_at(from, to, 0) == line_start(from, to));
    assert(-(k + 1) * bound <= err <= (k + 1) * bound) by (nonlinear_arith)
        requires
            k == 0,
            err == dx - dy,
            bound == dx + dy,
            dx >= 0,
            dy >= 0,
    ;
    loop
        invariant_except_break
            forall|b: int|
                0 <= b < start.len() ==> #[trigger] bytes@[b] == if covered(
                    from,
                    to,
                    lo as int,
                    hi as int,
                    k as nat,
                    (b / 4) % w,
                    (b / 4) / w,
                ) {
                    rgba@[b % 4]
                } else {
                    start[b]
                },
        invariant
            0 <= k <= bound,
            bound == line_bound(from, to),
            bound <= 0x2_0000_0000,
            dx == abs_int(to.0 - from.0),
            dy == abs_int(to.1 - from.1),
            x0 == from.0 && y0 == from.1 && x1 == to.0 && y1 == to.1,
            sx == (if from.0 < to.0 { 1int } else { -1int }),
            sy == (if from.1 < to.1 { 1int } else { -1int }),
            -24 <= lo <= 0 < hi <= 24,
            line_at(from, to, k as nat) == (LineState { x: x as int, y: y as int, err: err as int }),
            abs_int(x - x0) <= k,
            abs_int(y - y0) <= k,
            -(k + 1) * bound <= err <= (k + 1) * bound,
            line_end(from, to, 0) == line_end(from, to, k as nat),
            w == width as int,
            bytes@.len() == start.len(),
            start.len() == width as int * height as int * 4,
        ensures
            bytes@.len() == start.len(),
            forall|b: int|
                0 <= b < start.len() ==> #[trigger] bytes@[b] == if covered(
                    from,
                    to,
                    lo as int,
                    hi as int,
                    line_end(from, to, 0) + 1,
                    (b / 4) % w,
                    (b / 4) / w,
                ) {
                    rgba@[b % 4]
                } else {
                    start[b]
                },
        decreases bound - k,
    {
        let ghost before = bytes@;
        stamp_at(bytes, width, height, x, y, lo, hi, rgba);
        proof {
            assert forall|b: int| 0 <= b < start.len() implies #[trigger] bytes@[b] == if covered(
                from,
                to,
                lo as int,
                hi as int,
                (k + 1) as nat,
                (b / 4) % w,
                (b / 4) / w,
            ) {
                rgba@[b % 4]
            } else {
                start[b]
            } by {
                assert(before[b] == if covered(
                    from,
                    to,
                    lo as int,
                    hi as int,
                    k as nat,
                    (b / 4) % w,
                    (b / 4) / w,
                ) {
                    rgba@[b % 4]
                } else {
                    start[b]
                });
            }
        }
        if (x == x1 && y == y1) || k >= bound {
            break;
        }
        assert(-0x10_0000_0000_0000_0000_0000 <= err <= 0x10_0000_0000_0000_0000_0000) by (nonlinear_arith)
            requires
                -(k + 1) * bound <= err <= (k + 1) * bound,
                0 <= k <= bound,
                bound <= 0x2_0000_0000,
        ;
        let doubled = 2 * err;
        let ghost s0 = LineState { x: x as int, y: y as int, err: err as int };
        if doubled > -(dy as i128) {
            err = err - dy as i128;
            x = x + sx;
        }
        if doubled < dx as i128 {
            err = err + dx as i128;
            y = y + sy;
        }
        proof {
            assert(line_step(s0, from, to) == (LineState { x: x as int, y: y as int, err: err as int }));
            assert(-(k + 2) * bound <= err <= (k + 2) * bound) by (nonlinear_arith)
                requires
                    -(k + 1) * bound <= s0.err <= (k + 1) * bound,
                    s0.err - dy <= err <= s0.err + dx,
                    bound == dx + dy,
                    dx >= 0,
                    dy >= 0,
            ;
        }
        k = k + 1;
    }
}

/// Stamp a stroke over a copy of the image's bytes.
fn stroke_over(image: &PropImage, from: (i32, i32), to: (i32, i32), size: u32, rgba: [u8; 4]) -> (r: PropImage)
    requires
        image.wf(),
    ensures
        r@ == (ImageView {
            width: image@.width,
            height: image@.height,
            rgba: stroked(image@, from, to, size, rgba@),
        }),
        r.wf(),
{
    let side: u32 = if size < MIN_BRUSH_SIZE {
        MIN_BRUSH_SIZE
    } else if size > MAX_BRUSH_SIZE {
        MAX_BRUSH_SIZE
    } else {
        size
    };
    let half = (side / 2) as i64;
    let lo = -half;
    let hi = half + (side % 2) as i64;
    let width = image.width();
    let height = image.height();
    let mut bytes = crate::codec::thirtytwo::slice_to_vec(image.as_rgba());
    stamp_line(&mut bytes, width, height, from, to, lo, hi, rgba);
    assert(bytes@ =~= stroked(image@, from, to, size, rgba@));
    let n = bytes.len();
    assert(n as int == width as int * height as int * 4);
    match PropImage::from_rgba(width, height, bytes) {
        Ok(img) => img,
        Err(_) => {
            proof {
                assert(false);
            }
            PropImage::transparent(width, height)
        },
    }
}

/// Paint an opaque brush stroke between two points.
///
/// The whole line from `from` to `to` is stamped, so one call serves both a
/// click (equal endpoints) and a drag. `color`'s alpha is overridden to 255:
/// the brush is opaque. `size` is the stamp's side length, clamped to
/// [`MIN_BRUSH_SIZE`]..=[`MAX_BRUSH_SIZE`].
pub fn brush_stroke(image: &PropImage, from: (i32, i32), to: (i32, i32), color: [u8; 4], size: u32) -> (r: Result<PropImage, crate::error::PropError>)
    requires
        image.wf(),
    ensures
        r matches Ok(img) && img.wf() && img@ == (ImageView {
            width: image@.width,
            height: image@.height,
            rgba: stroked(image@, from, to, size, seq![color[0], color[1], color[2], 255u8]),
        }),
{
    let rgba: [u8; 4] = [color[0], color[1], color[2], 255];
    assert(rgba@ =~= seq![color[0], color[1], color[2], 255u8]);
    Ok(stroke_over(image, from, to, size, rgba))
}

/// Erase along a stroke: every stamped pixel becomes fully transparent
/// (`0, 0, 0, 0`).
pub fn erase_stroke(image: &PropImage, from: (i32, i32), to: (i32, i32), size: u32) -> (r: Result<PropImage, crate::error::PropError>)
    requires
        image.wf(),
    ensures
        r matches Ok(img) && img.wf() && img@ == (ImageView {
            width: image@.width,
            height: image@.height,
            rgba: stroked(image@, from, to, size, seq![0u8, 0u8, 0u8, 0u8]),
        }),
{
    let rgba: [u8; 4] = [0, 0, 0, 0];
    assert(rgba@ =~= seq![0u8, 0u8, 0u8, 0u8]);
    Ok(stroke_over(image, from, to, size, rgba))
}

} // verus!
