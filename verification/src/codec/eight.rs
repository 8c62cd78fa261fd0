//! 8-bit: nibble run-length, palette-indexed, **not** compressed.
//!
//! Each control byte is two nibbles, `(skip << 4) | count`: `skip` columns are
//! left untouched, then `count` palette bytes follow in the stream. A row is
//! finished when exactly `width` columns have been accounted for. The first row
//! in the stream is the top row of the image.
//!
//! The stream is read the way the reference reads its byte array: a read past
//! the end yields 0 and still advances, so a truncated stream walks into its
//! own tail until the 6000-control-byte runaway guard stops it. A pixel run that
//! runs out of payload leaves the rest of the run untouched and still finishes
//! the row.

use vstd::prelude::*;

use crate::codec::{fits_in_memory, image_result};
use crate::error::PropError;
use crate::image::{argb_to_rgba, ImageView, PropImage};
use crate::palette::{lookup, spec_palette};

verus! {

/// The reference decoder's runaway guard, in control bytes per prop.
pub const MAX_CONTROL_BYTES: usize = 6000;

/// The decoder's position in an 8-bit stream.
pub struct RleState {
    /// The image row being filled.
    pub row: int,
    /// Columns of the current row not yet accounted for.
    pub remaining: int,
    /// The next column a pixel run writes to.
    pub column: int,
    /// The next stream byte to read; it stops at the end of the payload, past
    /// which every read yields 0.
    pub cursor: int,
    /// Control bytes consumed so far.
    pub controls: int,
    /// The image so far, one ARGB word per pixel, row-major.
    pub pixels: Seq<u32>,
}

/// The stream byte at `at`, or 0 past the end.
pub open spec fn byte_or_zero(payload: Seq<u8>, at: int) -> u8 {
    if 0 <= at < payload.len() {
        payload[at]
    } else {
        0
    }
}

/// How many of `count` pixel bytes the payload still holds at `cursor`.
pub open spec fn run_len(payload: Seq<u8>, cursor: int, count: int) -> int {
    if cursor >= payload.len() {
        0
    } else if count <= payload.len() - cursor {
        count
    } else {
        payload.len() - cursor
    }
}

/// `pixels` with `n` palette colours from `payload[cursor..]` written from
/// index `start` on.
pub open spec fn write_run(pixels: Seq<u32>, start: int, payload: Seq<u8>, cursor: int, n: int) -> Seq<
    u32,
> {
    Seq::new(
        pixels.len(),
        |i: int|
            if start <= i < start + n {
                spec_palette(payload[cursor + (i - start)])
            } else {
                pixels[i]
            },
    )
}

/// Run the decoder from state `s` to the end of the image.
pub open spec fn rle_decode_from(payload: Seq<u8>, width: int, height: int, s: RleState) -> Result<
    Seq<u32>,
    PropError,
>
    decreases MAX_CONTROL_BYTES + 1 - s.controls, height - s.row,
{
    if s.row >= height {
        Ok(s.pixels)
    } else if s.remaining <= 0 {
        rle_decode_from(
            payload,
            width,
            height,
            RleState { row: s.row + 1, remaining: width, column: 0, ..s },
        )
    } else {
        let control = byte_or_zero(payload, s.cursor);
        let skip = (control >> 4u8) as int;
        let count = (control & 15u8) as int;
        let remaining = s.remaining - (skip + count);
        if remaining < 0 {
            Err(PropError::RleRowOverflow { row: s.row as usize })
        } else if s.controls + 1 > MAX_CONTROL_BYTES {
            Err(PropError::RleRunaway { row: s.row as usize })
        } else {
            let cursor = if s.cursor < payload.len() {
                s.cursor + 1
            } else {
                s.cursor
            };
            let column = s.column + skip;
            let n = run_len(payload, cursor, count);
            rle_decode_from(
                payload,
                width,
                height,
                RleState {
                    row: s.row,
                    remaining,
                    column: column + n,
                    cursor: cursor + n,
                    controls: s.controls + 1,
                    pixels: write_run(s.pixels, s.row * width + column, payload, cursor, n),
                },
            )
        }
    }
}

/// The row width the reference loop works with: `width as i32`.
pub open spec fn row_width(width: u32) -> int {
    (width as i32) as int
}

/// The decoder's state before the first byte: every pixel still zero.
pub open spec fn initial_state(width: u32, height: u32) -> RleState {
    RleState {
        row: 0,
        remaining: row_width(width),
        column: 0,
        cursor: 0,
        controls: 0,
        pixels: Seq::new((width as int * height as int) as nat, |i: int| 0u32),
    }
}

/// A positive reference row width is the width itself.
pub proof fn lemma_row_width(width: u32)
    ensures
        row_width(width) > 0 ==> row_width(width) == width as int,
        row_width(width) <= width as int,
{
    assert((width as i32) > 0 ==> ((width as i32) as u32) == width) by (bit_vector);
    assert((width as i32) <= 0 || ((width as i32) as u32) == width) by (bit_vector);
}

/// What [`decode`] returns for an 8-bit stream.
pub open spec fn spec_decode_eight(payload: Seq<u8>, width: u32, height: u32) -> Result<
    ImageView,
    PropError,
> {
    match rle_decode_from(payload, row_width(width), height as int, initial_state(width, height)) {
        Ok(pixels) => Ok(ImageView { width, height, rgba: argb_to_rgba(pixels) }),
        Err(e) => Err(e),
    }
}

/// Decode an 8-bit payload into a `width` x `height` image.
pub fn decode(payload: &[u8], width: u32, height: u32) -> (r: Result<PropImage, PropError>)
    requires
        fits_in_memory(width, height),
    ensures
        image_result(r) == spec_decode_eight(payload@, width, height),
        r matches Ok(img) ==> img.wf(),
{
    let w = width as usize;
    let h = height as usize;
    let total = w * h;
    let len = payload.len();
    let ghost p = payload@;
    let ghost wi = row_width(width);
    let ghost hi = height as int;
    let mut pixels: Vec<u32> = Vec::new();
    let mut k: usize = 0;
    while k < total
        invariant
            k <= total,
            pixels@.len() == k,
            forall|j: int| 0 <= j < k ==> pixels@[j] == 0u32,
        decreases total - k,
    {
        pixels.push(0u32);
        k = k + 1;
    }
    assert(pixels@ =~= initial_state(width, height).pixels);
    let row_start: i64 = (#[verifier::truncate] (width as i32)) as i64;
    let mut row: usize = 0;
    let mut remaining: i64 = row_start;
    let mut column: usize = 0;
    let mut cursor: usize = 0;
    let mut controls: usize = 0;
    while row < h
        invariant
            len == p.len(),
            p == payload@,
            total == width as int * height as int,
            h == height,
            w == width,
            wi == row_width(width),
            hi == height as int,
            row_start == wi,
            wi <= width as int,
            pixels@.len() == total,
            row <= h,
            remaining <= wi,
            0 <= column,
            remaining >= 0 ==> column + remaining <= wi,
            remaining < 0 ==> wi < 0,
            cursor <= len,
            controls <= MAX_CONTROL_BYTES,
            rle_decode_from(p, wi, hi, initial_state(width, height)) == rle_decode_from(
                p,
                wi,
                hi,
                RleState {
                    row: row as int,
                    remaining: remaining as int,
                    column: column as int,
                    cursor: cursor as int,
                    controls: controls as int,
                    pixels: pixels@,
                },
            ),
        decreases MAX_CONTROL_BYTES - controls, h - row,
    {
        if remaining <= 0 {
            let ghost cur = RleState {
                row: row as int,
                remaining: remaining as int,
                column: column as int,
                cursor: cursor as int,
                controls: controls as int,
                pixels: pixels@,
            };
            row = row + 1;
            remaining = row_start;
            column = 0;
            assert(rle_decode_from(p, wi, hi, cur) == rle_decode_from(
                p,
                wi,
                hi,
                RleState {
                    row: row as int,
                    remaining: remaining as int,
                    column: column as int,
                    cursor: cursor as int,
                    controls: controls as int,
                    pixels: pixels@,
                },
            ));
        } else {
            proof {
                lemma_row_width(width);
            }
            let control: u8 = if cursor < len {
                payload[cursor]
            } else {
                0
            };
            let skip = (control >> 4u8) as usize;
            let count = (control & 15u8) as usize;
            assert(control >> 4u8 <= 15u8 && control & 15u8 <= 15u8) by (bit_vector);
            let next_remaining = remaining - (skip + count) as i64;
            let ghost cur = RleState {
                row: row as int,
                remaining: remaining as int,
                column: column as int,
                cursor: cursor as int,
                controls: controls as int,
                pixels: pixels@,
            };
            assert(byte_or_zero(p, cursor as int) == control);
            assert(skip == (control >> 4u8) as int && count == (control & 15u8) as int);
            if next_remaining < 0 {
                assert(rle_decode_from(p, wi, hi, cur) == Err::<Seq<u32>, PropError>(
                    PropError::RleRowOverflow { row },
                ));
                return Err(PropError::RleRowOverflow { row });
            }
            if controls + 1 > MAX_CONTROL_BYTES {
                assert(rle_decode_from(p, wi, hi, cur) == Err::<Seq<u32>, PropError>(
                    PropError::RleRunaway { row },
                ));
                return Err(PropError::RleRunaway { row });
            }
            if cursor < len {
                cursor = cursor + 1;
            }
            let start_column = column + skip;
            let n: usize = if cursor >= len {
                0
            } else if count <= len - cursor {
                count
            } else {
                len - cursor
            };
            assert(start_column + n + next_remaining <= wi);
            assert(row * w + start_column + n <= total) by (nonlinear_arith)
                requires
                    row < h,
                    start_column + n <= w,
                    total == w * h,
            ;
            let base = row * w + start_column;
            let ghost before = pixels@;
            let mut j: usize = 0;
            while j < n
                invariant
                    j <= n,
                    base + n <= total,
                    cursor + n <= len,
                    len == p.len(),
                    p == payload@,
                    pixels@.len() == total,
                    pixels@ == write_run(before, base as int, p, cursor as int, j as int),
                decreases n - j,
            {
                let colour = lookup(payload[cursor + j]);
                pixels.set(base + j, colour);
                j = j + 1;
                assert(pixels@ =~= write_run(before, base as int, p, cursor as int, j as int));
            }
            column = start_column + n;
            cursor = cursor + n;
            controls = controls + 1;
            remaining = next_remaining;
            assert(rle_decode_from(p, wi, hi, cur) == rle_decode_from(
                p,
                wi,
                hi,
                RleState {
                    row: row as int,
                    remaining: remaining as int,
                    column: column as int,
                    cursor: cursor as int,
                    controls: controls as int,
                    pixels: pixels@,
                },
            ));
        }
    }
    proof {
        assert(argb_to_rgba(pixels@).len() == pixels@.len() * 4);
    }
    Ok(PropImage::from_argb(width, height, pixels.as_slice()))
}

/// One run of an 8-bit row: how many columns it skips, and the palette
/// bytes it paints after them. A control byte holds at most 15 of each, and
/// a run that covers no column is never needed.
pub open spec fn run_ok(run: (u8, Seq<u8>)) -> bool {
    run.0 <= 15 && run.1.len() <= 15 && run.0 + run.1.len() >= 1
}

/// Every run is one a control byte can express.
pub open spec fn runs_ok(runs: Seq<(u8, Seq<u8>)>) -> bool {
    forall|i: int| 0 <= i < runs.len() ==> run_ok(#[trigger] runs[i])
}

/// The columns a list of runs covers.
pub open spec fn runs_width(runs: Seq<(u8, Seq<u8>)>) -> int
    decreases runs.len(),
{
    if runs.len() == 0 {
        0
    } else {
        runs[0].0 + runs[0].1.len() + runs_width(runs.drop_first())
    }
}

/// The stream bytes of a list of runs: each run's control byte
/// `(skip << 4) | count`, then its palette bytes.
pub open spec fn encode_runs(runs: Seq<(u8, Seq<u8>)>) -> Seq<u8>
    decreases runs.len(),
{
    if runs.len() == 0 {
        Seq::empty()
    } else {
        seq![(runs[0].0 * 16 + runs[0].1.len()) as u8] + runs[0].1 + encode_runs(runs.drop_first())
    }
}

/// The row a list of runs paints on a blank row: each run's skipped columns
/// stay blank, then its palette colours follow, and the next run starts right
/// after them.
pub open spec fn row_pixels(runs: Seq<(u8, Seq<u8>)>) -> Seq<u32>
    decreases runs.len(),
{
    if runs.len() == 0 {
        Seq::empty()
    } else {
        Seq::new(runs[0].0 as nat, |i: int| 0u32) + Seq::new(
            runs[0].1.len(),
            |t: int| spec_palette(runs[0].1[t]),
        ) + row_pixels(runs.drop_first())
    }
}

proof fn lemma_runs_width_nonneg(runs: Seq<(u8, Seq<u8>)>)
    ensures
        runs_width(runs) >= 0,
        encode_runs(runs).len() >= runs.len(),
    decreases runs.len(),
{
    if runs.len() > 0 {
        lemma_runs_width_nonneg(runs.drop_first());
    }
}

proof fn lemma_control_byte(skip: u8, count: u8)
    requires
        skip <= 15,
        count <= 15,
    ensures
        ((skip * 16 + count) as u8 >> 4u8) == skip,
        ((skip * 16 + count) as u8 & 15u8) == count,
{
    let c: u8 = (skip * 16 + count) as u8;
    assert(c == skip * 16 + count);
    assert(c >> 4u8 == skip && c & 15u8 == count) by (bit_vector)
        requires
            c == skip * 16 + count,
            skip <= 15,
            count <= 15,
    ;
}

/// `px` with `seg` written from index `at` on.
pub open spec fn placed(px: Seq<u32>, at: int, seg: Seq<u32>) -> Seq<u32> {
    Seq::new(px.len(), |j: int| if at <= j < at + seg.len() { seg[j - at] } else { px[j] })
}

proof fn lemma_row_pixels_len(runs: Seq<(u8, Seq<u8>)>)
    ensures
        row_pixels(runs).len() == runs_width(runs),
    decreases runs.len(),
{
    if runs.len() > 0 {
        lemma_row_pixels_len(runs.drop_first());
    }
}

proof fn lemma_decode_runs_at(
    p: Seq<u8>,
    w: int,
    h: int,
    r: int,
    runs: Seq<(u8, Seq<u8>)>,
    c: int,
    q: int,
    k: int,
    px: Seq<u32>,
)
    requires
        w > 0,
        0 <= r < h,
        runs_ok(runs),
        0 <= c,
        c + runs_width(runs) == w,
        px.len() == w * h,
        r * w + w <= w * h,
        forall|j: int| r * w + c <= j < r * w + w ==> px[j] == 0u32,
        0 <= q,
        q + encode_runs(runs).len() <= p.len(),
        forall|j: int| 0 <= j < encode_runs(runs).len() ==> p[q + j] == encode_runs(runs)[j],
        0 <= k,
        k + runs.len() <= MAX_CONTROL_BYTES,
    ensures
        rle_decode_from(
            p,
            w,
            h,
            RleState { row: r, remaining: w - c, column: c, cursor: q, controls: k, pixels: px },
        ) == rle_decode_from(
            p,
            w,
            h,
            RleState {
                row: r + 1,
                remaining: w,
                column: 0,
                cursor: q + encode_runs(runs).len(),
                controls: k + runs.len(),
                pixels: placed(px, r * w + c, row_pixels(runs)),
            },
        ),
    decreases runs.len(),
{
    if runs.len() == 0 {
        assert(placed(px, r * w + c, row_pixels(runs)) =~= px);
    } else {
        let rest = runs.drop_first();
        let sk = runs[0].0;
        let bs = runs[0].1;
        let len = bs.len() as int;
        assert(run_ok(runs[0]));
        assert forall|i: int| 0 <= i < rest.len() implies run_ok(#[trigger] rest[i]) by {
            assert(rest[i] == runs[i + 1]);
        }
        lemma_runs_width_nonneg(rest);
        lemma_row_pixels_len(rest);
        lemma_row_pixels_len(runs);
        let enc = encode_runs(runs);
        let enc_rest = encode_runs(rest);
        assert(enc == seq![(sk * 16 + len) as u8] + bs + enc_rest);
        assert(p[q] == enc[0]);
        assert(byte_or_zero(p, q) == (sk * 16 + len) as u8);
        lemma_control_byte(sk, len as u8);
        let control = byte_or_zero(p, q);
        assert((control >> 4u8) as int == sk as int);
        assert((control & 15u8) as int == len);
        assert(run_len(p, q + 1, len) == len);
        let col = c + sk;
        let base = r * w + col;
        let px2 = write_run(px, base, p, q + 1, len);
        let s = RleState { row: r, remaining: w - c, column: c, cursor: q, controls: k, pixels: px };
        let s2 = RleState {
            row: r,
            remaining: w - (c + sk + len),
            column: col + len,
            cursor: q + 1 + len,
            controls: k + 1,
            pixels: px2,
        };
        assert(rle_decode_from(p, w, h, s) == rle_decode_from(p, w, h, s2));
        assert forall|j: int| 0 <= j < enc_rest.len() implies p[q + 1 + len + j] == enc_rest[j] by {
            assert(enc[1 + len + j] == enc_rest[j]);
        }
        assert forall|j: int| r * w + (c + sk + len) <= j < r * w + w implies px2[j] == 0u32 by {
            assert(px[j] == 0u32);
        }
        lemma_decode_runs_at(p, w, h, r, rest, c + sk + len, q + 1 + len, k + 1, px2);
        assert(enc.len() == 1 + len + enc_rest.len());
        let lhs = placed(px2, r * w + c + sk + len, row_pixels(rest));
        let rhs = placed(px, r * w + c, row_pixels(runs));
        assert(row_pixels(runs) == Seq::new(sk as nat, |i: int| 0u32) + Seq::new(
            bs.len(),
            |t: int| spec_palette(bs[t]),
        ) + row_pixels(rest));
        assert forall|j: int| 0 <= j < lhs.len() implies lhs[j] == rhs[j] by {
            if r * w + c <= j < r * w + c + sk {
                assert(px[j] == 0u32);
            } else if base <= j < base + len {
                assert(p[q + 1 + (j - base)] == enc[1 + (j - base)]);
                assert(enc[1 + (j - base)] == bs[j - base]);
            }
        }
        assert(lhs =~= rhs);
    }
}

/// Every row is a list of runs a control byte can express, covering
/// exactly `w` columns.
pub open spec fn rows_ok(rows: Seq<Seq<(u8, Seq<u8>)>>, w: int) -> bool {
    forall|i: int| 0 <= i < rows.len() ==> runs_ok(#[trigger] rows[i]) && runs_width(rows[i]) == w
}

/// The stream bytes of a list of rows, top row first.
pub open spec fn encode_rows(rows: Seq<Seq<(u8, Seq<u8>)>>) -> Seq<u8>
    decreases rows.len(),
{
    if rows.len() == 0 {
        Seq::empty()
    } else {
        encode_runs(rows[0]) + encode_rows(rows.drop_first())
    }
}

/// How many control bytes a list of rows spends.
pub open spec fn rows_controls(rows: Seq<Seq<(u8, Seq<u8>)>>) -> int
    decreases rows.len(),
{
    if rows.len() == 0 {
        0
    } else {
        rows[0].len() + rows_controls(rows.drop_first())
    }
}

/// The image a list of rows paints, top row first.
pub open spec fn rows_pixels(rows: Seq<Seq<(u8, Seq<u8>)>>) -> Seq<u32>
    decreases rows.len(),
{
    if rows.len() == 0 {
        Seq::empty()
    } else {
        row_pixels(rows[0]) + rows_pixels(rows.drop_first())
    }
}

proof fn lemma_decode_rows(
    p: Seq<u8>,
    w: int,
    h: int,
    rows: Seq<Seq<(u8, Seq<u8>)>>,
    r: int,
    q: int,
    k: int,
    px: Seq<u32>,
)
    requires
        w > 0,
        0 <= r <= h,
        rows.len() == h - r,
        rows_ok(rows, w),
        px.len() == w * h,
        forall|j: int| r * w <= j < w * h ==> px[j] == 0u32,
        0 <= q,
        q + encode_rows(rows).len() <= p.len(),
        forall|j: int| 0 <= j < encode_rows(rows).len() ==> p[q + j] == encode_rows(rows)[j],
        0 <= k,
        k + rows_controls(rows) <= MAX_CONTROL_BYTES,
    ensures
        rle_decode_from(
            p,
            w,
            h,
            RleState { row: r, remaining: w, column: 0, cursor: q, controls: k, pixels: px },
        ) == Ok::<Seq<u32>, PropError>(px.subrange(0, r * w) + rows_pixels(rows)),
    decreases h - r,
{
    if r >= h {
        assert(r * w == w * h) by (nonlinear_arith)
            requires
                r == h,
        ;
        assert(px.subrange(0, r * w) + rows_pixels(rows) =~= px);
    } else {
        let rest = rows.drop_first();
        let runs = rows[0];
        assert(runs_ok(runs) && runs_width(runs) == w);
        assert forall|i: int| 0 <= i < rest.len() implies runs_ok(#[trigger] rest[i])
            && runs_width(rest[i]) == w by {
            assert(rest[i] == rows[i + 1]);
        }
        let enc = encode_rows(rows);
        let e0 = encode_runs(runs);
        let er = encode_rows(rest);
        assert(enc == e0 + er);
        lemma_rows_controls_nonneg(rest);
        assert(r * w + w <= w * h) by (nonlinear_arith)
            requires
                r < h,
                w > 0,
        ;
        assert(r * w + w == (r + 1) * w) by (nonlinear_arith);
        assert(0 <= r * w) by (nonlinear_arith)
            requires
                r >= 0,
                w > 0,
        ;
        assert forall|j: int| 0 <= j < e0.len() implies p[q + j] == e0[j] by {
            assert(enc[j] == e0[j]);
        }
        assert forall|j: int| r * w + 0 <= j < r * w + w implies px[j] == 0u32 by {}
        lemma_decode_runs_at(p, w, h, r, runs, 0, q, k, px);
        lemma_row_pixels_len(runs);
        let px2 = placed(px, r * w, row_pixels(runs));
        assert forall|j: int| 0 <= j < er.len() implies p[q + e0.len() + j] == er[j] by {
            assert(enc[e0.len() + j] == er[j]);
        }
        assert forall|j: int| (r + 1) * w <= j < w * h implies px2[j] == 0u32 by {}
        lemma_decode_rows(p, w, h, rest, r + 1, q + e0.len(), k + runs.len(), px2);
        assert(rows_pixels(rows) == row_pixels(runs) + rows_pixels(rest));
        assert(px2.subrange(0, (r + 1) * w) =~= px.subrange(0, r * w) + row_pixels(runs));
        assert(px2.subrange(0, (r + 1) * w) + rows_pixels(rest) =~= px.subrange(0, r * w)
            + rows_pixels(rows));
    }
}

proof fn lemma_rows_controls_nonneg(rows: Seq<Seq<(u8, Seq<u8>)>>)
    ensures
        rows_controls(rows) >= 0,
    decreases rows.len(),
{
    if rows.len() > 0 {
        lemma_rows_controls_nonneg(rows.drop_first());
    }
}

/// An 8-bit image decodes as its rows of runs describe, row after row from
/// the top: in each row every run leaves its skipped columns blank and paints
/// its palette colours right after them, the next run starts where the
/// previous one's pixels end, and the next row starts at column 0 of the row
/// below.
pub proof fn lemma_eight_image_is_its_rows(
    rows: Seq<Seq<(u8, Seq<u8>)>>,
    width: u32,
    height: u32,
)
    requires
        rows.len() == height as int,
        rows_ok(rows, width as int),
        1 <= width <= i32::MAX,
        rows_controls(rows) <= MAX_CONTROL_BYTES,
    ensures
        spec_decode_eight(encode_rows(rows), width, height) == Ok::<ImageView, PropError>(
            ImageView { width, height, rgba: argb_to_rgba(rows_pixels(rows)) },
        ),
{
    lemma_row_width(width);
    let p = encode_rows(rows);
    let s0 = initial_state(width, height);
    lemma_decode_rows(p, width as int, height as int, rows, 0, 0, 0, s0.pixels);
    assert(s0 == RleState {
        row: 0,
        remaining: width as int,
        column: 0,
        cursor: 0,
        controls: 0,
        pixels: s0.pixels,
    });
    assert(s0.pixels.subrange(0, 0) + rows_pixels(rows) =~= rows_pixels(rows));
}

proof fn lemma_skip_rows(
    p: Seq<u8>,
    w: int,
    h: int,
    rows: Seq<Seq<(u8, Seq<u8>)>>,
    r: int,
    q: int,
    k: int,
    px: Seq<u32>,
) -> (px2: Seq<u32>)
    requires
        w > 0,
        0 <= r,
        r + rows.len() <= h,
        rows_ok(rows, w),
        px.len() == w * h,
        forall|j: int| r * w <= j < w * h ==> px[j] == 0u32,
        0 <= q,
        q + encode_rows(rows).len() <= p.len(),
        forall|j: int| 0 <= j < encode_rows(rows).len() ==> p[q + j] == encode_rows(rows)[j],
        0 <= k,
        k + rows_controls(rows) <= MAX_CONTROL_BYTES,
    ensures
        px2.len() == w * h,
        rle_decode_from(
            p,
            w,
            h,
            RleState { row: r, remaining: w, column: 0, cursor: q, controls: k, pixels: px },
        ) == rle_decode_from(
            p,
            w,
            h,
            RleState {
                row: r + rows.len(),
                remaining: w,
                column: 0,
                cursor: q + encode_rows(rows).len(),
                controls: k + rows_controls(rows),
                pixels: px2,
            },
        ),
    decreases rows.len(),
{
    if rows.len() == 0 {
        assert(encode_rows(rows).len() == 0);
        px
    } else {
        let rest = rows.drop_first();
        let runs = rows[0];
        assert(runs_ok(runs) && runs_width(runs) == w);
        assert forall|i: int| 0 <= i < rest.len() implies runs_ok(#[trigger] rest[i])
            && runs_width(rest[i]) == w by {
            assert(rest[i] == rows[i + 1]);
        }
        let enc = encode_rows(rows);
        let e0 = encode_runs(runs);
        let er = encode_rows(rest);
        assert(enc == e0 + er);
        lemma_rows_controls_nonneg(rest);
        assert(r * w + w <= w * h) by (nonlinear_arith)
            requires
                r < h,
                w > 0,
        ;
        assert(r * w + w == (r + 1) * w) by (nonlinear_arith);
        assert(0 <= r * w) by (nonlinear_arith)
            requires
                r >= 0,
                w > 0,
        ;
        assert forall|j: int| 0 <= j < e0.len() implies p[q + j] == e0[j] by {
            assert(enc[j] == e0[j]);
        }
        assert forall|j: int| r * w + 0 <= j < r * w + w implies px[j] == 0u32 by {}
        lemma_decode_runs_at(p, w, h, r, runs, 0, q, k, px);
        lemma_row_pixels_len(runs);
        let px2 = placed(px, r * w, row_pixels(runs));
        assert forall|j: int| 0 <= j < er.len() implies p[q + e0.len() + j] == er[j] by {
            assert(enc[e0.len() + j] == er[j]);
        }
        assert forall|j: int| (r + 1) * w <= j < w * h implies px2[j] == 0u32 by {}
        lemma_skip_rows(p, w, h, rest, r + 1, q + e0.len(), k + runs.len(), px2)
    }
}

/// A control byte that covers more columns than its row has left is refused,
/// naming that row: after any number of complete rows, a control byte whose
/// skip and count together exceed the image width gives the row-overflow
/// error for the row it starts.
pub proof fn lemma_eight_overflow_names_its_row(
    rows: Seq<Seq<(u8, Seq<u8>)>>,
    control: u8,
    tail: Seq<u8>,
    width: u32,
    height: u32,
)
    requires
        rows.len() < height as int,
        rows_ok(rows, width as int),
        1 <= width <= i32::MAX,
        rows_controls(rows) <= MAX_CONTROL_BYTES,
        (control >> 4u8) as int + (control & 15u8) as int > width as int,
    ensures
        spec_decode_eight(encode_rows(rows) + seq![control] + tail, width, height)
            == Err::<ImageView, PropError>(PropError::RleRowOverflow { row: rows.len() as usize }),
{
    lemma_row_width(width);
    let e = encode_rows(rows);
    let p = e + seq![control] + tail;
    let w = width as int;
    let h = height as int;
    let s0 = initial_state(width, height);
    assert forall|j: int| 0 <= j < e.len() implies p[0 + j] == e[j] by {}
    let px2 = lemma_skip_rows(p, w, h, rows, 0, 0, 0, s0.pixels);
    assert(s0 == RleState { row: 0, remaining: w, column: 0, cursor: 0, controls: 0, pixels: s0.pixels });
    assert(p[e.len() as int] == control);
    assert(byte_or_zero(p, e.len() as int) == control);
}

} // verus!
