//! Flood fill: recolour the 4-connected region around a seed pixel.
//!
//! Pixels are joined through shared edges, not diagonals. A pixel belongs to
//! the region when a chain of such steps leads to it from the seed through
//! pixels each of whose RGBA channels lies within `limit` of the seed's.

use vstd::prelude::*;

use crate::error::PropError;
use crate::image::{spec_pixel, ImageView, PropImage};

verus! {

/// Two channel values at most `limit` apart.
pub open spec fn close(a: u8, b: u8, limit: u8) -> bool {
    a - b <= limit && b - a <= limit
}

/// Whether pixel `(x, y)` is within `limit` of `seed` on every channel.
pub open spec fn near(v: ImageView, seed: Seq<u8>, limit: u8, x: int, y: int) -> bool {
    let p = spec_pixel(v, x, y);
    &&& close(p[0], seed[0], limit)
    &&& close(p[1], seed[1], limit)
    &&& close(p[2], seed[2], limit)
    &&& close(p[3], seed[3], limit)
}

/// Whether `(x, y)` lies on the canvas.
pub open spec fn inside(v: ImageView, x: int, y: int) -> bool {
    0 <= x < v.width && 0 <= y < v.height
}

/// Whether two pixels share an edge.
pub open spec fn step(a: (int, int), b: (int, int)) -> bool {
    ||| (b.0 == a.0 + 1 || b.0 == a.0 - 1) && b.1 == a.1
    ||| (b.1 == a.1 + 1 || b.1 == a.1 - 1) && b.0 == a.0
}

/// Whether `path` runs from the seed `(sx, sy)` through edge-sharing pixels,
/// each on the canvas and within `limit` of the seed.
pub open spec fn fill_path(v: ImageView, sx: int, sy: int, limit: u8, path: Seq<(int, int)>) -> bool {
    &&& path.len() >= 1
    &&& path[0] == (sx, sy)
    &&& forall|i: int|
        0 <= i < path.len() ==> inside(v, (#[trigger] path[i]).0, path[i].1) && near(
            v,
            spec_pixel(v, sx, sy),
            limit,
            path[i].0,
            path[i].1,
        )
    &&& forall|i: int| 0 <= i < path.len() - 1 ==> step(#[trigger] path[i], path[i + 1])
}

/// Whether `(x, y)` belongs to the region the fill from `(sx, sy)` covers.
pub open spec fn in_region(v: ImageView, sx: int, sy: int, limit: u8, x: int, y: int) -> bool {
    exists|path: Seq<(int, int)>| #[trigger] fill_path(v, sx, sy, limit, path) && path.last() == (x, y)
}

/// The flat index of a pixel.
pub open spec fn flat(w: int, a: int, b: int) -> int {
    b * w + a
}

proof fn lemma_flat(w: int, h: int, a: int, b: int)
    requires
        0 <= a < w,
        0 <= b < h,
    ensures
        0 <= flat(w, a, b) < w * h,
        flat(w, a, b) * 4 + 4 <= w * h * 4,
{
    assert(0 <= b * w + a < w * h) by (nonlinear_arith)
        requires
            0 <= a < w,
            0 <= b < h,
    ;
}

proof fn lemma_flat_inj(w: int, a: int, b: int, c: int, d: int)
    requires
        0 <= a < w,
        0 <= c < w,
        0 <= b,
        0 <= d,
        flat(w, a, b) == flat(w, c, d),
    ensures
        a == c && b == d,
{
    assert(b == d) by (nonlinear_arith)
        requires
            0 <= a < w,
            0 <= c < w,
            0 <= b,
            0 <= d,
            b * w + a == d * w + c,
    {
        if b < d {
            assert(b * w + w <= d * w);
        } else if d < b {
            assert(d * w + w <= b * w);
        }
    }
}

/// The number of set flags.
pub open spec fn count_set(s: Seq<bool>) -> nat
    decreases s.len(),
{
    if s.len() == 0 {
        0
    } else {
        count_set(s.drop_last()) + if s.last() {
            1nat
        } else {
            0nat
        }
    }
}

proof fn lemma_count_set(s: Seq<bool>, i: int)
    requires
        0 <= i < s.len(),
        !s[i],
    ensures
        count_set(s.update(i, true)) == count_set(s) + 1,
        count_set(s) < s.len(),
    decreases s.len(),
{
    let u = s.update(i, true);
    if i == s.len() - 1 {
        assert(u.drop_last() =~= s.drop_last());
        lemma_count_bound(s.drop_last());
    } else {
        assert(u.drop_last() =~= s.drop_last().update(i, true));
        lemma_count_set(s.drop_last(), i);
    }
}

proof fn lemma_count_bound(s: Seq<bool>)
    ensures
        count_set(s) <= s.len(),
    decreases s.len(),
{
    if s.len() > 0 {
        lemma_count_bound(s.drop_last());
    }
}

/// Whether every pixel that shares an edge with `(a, b)` and is within
/// `limit` of the seed is marked.
pub open spec fn closed_at(v: ImageView, seed: Seq<u8>, limit: u8, vis: Seq<bool>, a: int, b: int) -> bool {
    forall|a2: int, b2: int|
        inside(v, a2, b2) && step((a, b), (a2, b2)) && near(v, seed, limit, a2, b2) ==> #[trigger] vis[flat(
            v.width as int,
            a2,
            b2,
        )]
}

/// Whether `(a, b)` is waiting on the stack.
pub open spec fn pending(stack: Seq<(usize, usize)>, a: int, b: int) -> bool {
    exists|k: int| 0 <= k < stack.len() && stack[k].0 == a && stack[k].1 == b
}

/// A closed marked set holding the seed holds every pixel of the region.
proof fn lemma_region_marked(
    v: ImageView,
    sx: int,
    sy: int,
    limit: u8,
    vis: Seq<bool>,
    path: Seq<(int, int)>,
    k: int,
)
    requires
        fill_path(v, sx, sy, limit, path),
        0 <= k < path.len(),
        vis[flat(v.width as int, sx, sy)],
        forall|a: int, b: int|
            inside(v, a, b) && #[trigger] vis[flat(v.width as int, a, b)] ==> closed_at(
                v,
                spec_pixel(v, sx, sy),
                limit,
                vis,
                a,
                b,
            ),
    ensures
        vis[flat(v.width as int, path[k].0, path[k].1)],
    decreases k,
{
    if k > 0 {
        lemma_region_marked(v, sx, sy, limit, vis, path, k - 1);
        let p = path[k - 1];
        let q = path[k];
        assert(inside(v, p.0, p.1));
        assert(step(p, q));
        assert(inside(v, q.0, q.1) && near(v, spec_pixel(v, sx, sy), limit, q.0, q.1));
        assert(closed_at(v, spec_pixel(v, sx, sy), limit, vis, p.0, p.1));
    }
}

/// What holds of the fill's state between steps: every marked pixel is in
/// the region and painted, every other pixel keeps its bytes, the stack
/// holds marked pixels, and every marked pixel off the stack (but `hole`)
/// has its qualifying neighbours marked.
pub open spec fn fill_inv(
    v: ImageView,
    sx: int,
    sy: int,
    limit: u8,
    color: Seq<u8>,
    vis: Seq<bool>,
    stack: Seq<(usize, usize)>,
    bytes: Seq<u8>,
    hole: Option<(int, int)>,
) -> bool {
    let w = v.width as int;
    &&& vis.len() == w * v.height
    &&& bytes.len() == v.rgba.len()
    &&& inside(v, sx, sy)
    &&& vis[flat(w, sx, sy)]
    &&& forall|a: int, b: int|
        inside(v, a, b) && #[trigger] vis[flat(w, a, b)] ==> in_region(v, sx, sy, limit, a, b)
    &&& forall|a: int, b: int, c: int|
        inside(v, a, b) && 0 <= c < 4 ==> #[trigger] bytes[flat(w, a, b) * 4 + c] == if vis[flat(
            w,
            a,
            b,
        )] {
            color[c]
        } else {
            v.rgba[flat(w, a, b) * 4 + c]
        }
    &&& forall|k: int|
        0 <= k < stack.len() ==> inside(v, (#[trigger] stack[k]).0 as int, stack[k].1 as int)
            && vis[flat(w, stack[k].0 as int, stack[k].1 as int)]
    &&& forall|a: int, b: int|
        inside(v, a, b) && #[trigger] vis[flat(w, a, b)] && !pending(stack, a, b) && hole != Some(
            (a, b),
        ) ==> closed_at(v, spec_pixel(v, sx, sy), limit, vis, a, b)
}

/// Whether pixel `(x, y)` is within `limit` of `seed`.
fn near_seed(image: &PropImage, seed: [u8; 4], limit: u8, x: u32, y: u32) -> (r: bool)
    requires
        image.wf(),
        x < image@.width,
        y < image@.height,
    ensures
        r == near(image@, seed@, limit, x as int, y as int),
{
    let p = image.pixel(x, y).unwrap();
    let mut ok = true;
    let mut c: usize = 0;
    while c < 4
        invariant
            c <= 4,
            p@ == spec_pixel(image@, x as int, y as int),
            ok == (forall|j: int| 0 <= j < c ==> close(#[trigger] p@[j], seed@[j], limit)),
        decreases 4 - c,
    {
        let a = p[c];
        let b = seed[c];
        let d = if a >= b {
            a - b
        } else {
            b - a
        };
        ok = ok && d <= limit;
        c = c + 1;
    }
    assert(ok == (close(p@[0], seed@[0], limit) && close(p@[1], seed@[1], limit) && close(
        p@[2],
        seed@[2],
        limit,
    ) && close(p@[3], seed@[3], limit)));
    ok
}

/// Mark, queue and paint `(a, b)`, a neighbour of the region pixel `from`,
/// when it is unmarked and within `limit` of the seed.
fn visit(
    image: &PropImage,
    seed: [u8; 4],
    limit: u8,
    color: [u8; 4],
    a: u32,
    b: u32,
    vis: &mut Vec<bool>,
    stack: &mut Vec<(usize, usize)>,
    bytes: &mut Vec<u8>,
    Ghost(sx): Ghost<int>,
    Ghost(sy): Ghost<int>,
    Ghost(hole): Ghost<Option<(int, int)>>,
    Ghost(from): Ghost<(int, int)>,
)
    requires
        image.wf(),
        seed@ == spec_pixel(image@, sx, sy),
        fill_inv(image@, sx, sy, limit, color@, old(vis)@, old(stack)@, old(bytes)@, hole),
        inside(image@, a as int, b as int),
        inside(image@, from.0, from.1),
        old(vis)@[flat(image@.width as int, from.0, from.1)],
        step(from, (a as int, b as int)),
    ensures
        fill_inv(image@, sx, sy, limit, color@, final(vis)@, final(stack)@, final(bytes)@, hole),
        near(image@, seed@, limit, a as int, b as int) ==> final(vis)@[flat(
            image@.width as int,
            a as int,
            b as int,
        )],
        forall|i: int| 0 <= i < old(vis)@.len() && old(vis)@[i] ==> #[trigger] final(vis)@[i],
        final(vis)@.len() == old(vis)@.len(),
        (final(vis)@ == old(vis)@ && final(stack)@ == old(stack)@) || (count_set(final(vis)@)
            == count_set(old(vis)@) + 1 && final(stack)@.len() == old(stack)@.len() + 1),
        forall|k: int| 0 <= k < old(stack)@.len() ==> #[trigger] final(stack)@[k] == old(stack)@[k],
{
    let ghost v = image@;
    let ghost w = v.width as int;
    let width = image.width() as usize;
    let total = bytes.len();
    proof {
        lemma_flat(w, v.height as int, a as int, b as int);
        assert(total == w * v.height * 4);
    }
    let at = (b as usize) * width + (a as usize);
    assert(at == flat(w, a as int, b as int));
    if vis[at] {
        return;
    }
    if !near_seed(image, seed, limit, a, b) {
        return;
    }
    let ghost vis0 = vis@;
    let ghost stack0 = stack@;
    let ghost bytes0 = bytes@;
    proof {
        lemma_count_set(vis0, at as int);
    }
    vis.set(at, true);
    stack.push((a as usize, b as usize));
    let base = at * 4;
    bytes.set(base, color[0]);
    bytes.set(base + 1, color[1]);
    bytes.set(base + 2, color[2]);
    bytes.set(base + 3, color[3]);
    proof {
        let q = (a as int, b as int);
        // The new pixel is in the region: extend a path to `from`.
        assert(in_region(v, sx, sy, limit, from.0, from.1));
        let path = choose|path: Seq<(int, int)>| #[trigger] fill_path(v, sx, sy, limit, path) && path.last() == from;
        let np = path.push(q);
        assert(np[0] == path[0]);
        assert forall|i: int| 0 <= i < np.len() implies inside(v, (#[trigger] np[i]).0, np[i].1) && near(
            v,
            spec_pixel(v, sx, sy),
            limit,
            np[i].0,
            np[i].1,
        ) by {
            if i < path.len() {
                assert(np[i] == path[i]);
            }
        }
        assert forall|i: int| 0 <= i < np.len() - 1 implies step(#[trigger] np[i], np[i + 1]) by {
            if i < path.len() - 1 {
                assert(np[i] == path[i] && np[i + 1] == path[i + 1]);
            } else {
                assert(np[i] == from);
            }
        }
        assert(fill_path(v, sx, sy, limit, np) && np.last() == q);
        assert forall|x: int, y: int| inside(v, x, y) && #[trigger] vis@[flat(w, x, y)] implies in_region(
            v,
            sx,
            sy,
            limit,
            x,
            y,
        ) by {
            lemma_flat(w, v.height as int, x, y);
            if (x, y) != q {
                if flat(w, x, y) == at {
                    lemma_flat_inj(w, x, y, a as int, b as int);
                }
                assert(vis0[flat(w, x, y)]);
            }
        }
        assert forall|x: int, y: int, c: int| inside(v, x, y) && 0 <= c < 4 implies #[trigger] bytes@[flat(w, x, y) * 4 + c] == if vis@[flat(w, x, y)] {
            color@[c]
        } else {
            v.rgba[flat(w, x, y) * 4 + c]
        } by {
            lemma_flat(w, v.height as int, x, y);
            if flat(w, x, y) == at {
                lemma_flat_inj(w, x, y, a as int, b as int);
            } else {
                assert(bytes@[flat(w, x, y) * 4 + c] == bytes0[flat(w, x, y) * 4 + c]);
                assert(vis@[flat(w, x, y)] == vis0[flat(w, x, y)]);
            }
        }
        assert forall|k: int| 0 <= k < stack@.len() implies inside(v, (#[trigger] stack@[k]).0 as int, stack@[k].1 as int)
            && vis@[flat(w, stack@[k].0 as int, stack@[k].1 as int)] by {
            if k < stack0.len() {
                assert(stack@[k] == stack0[k]);
                lemma_flat(w, v.height as int, stack0[k].0 as int, stack0[k].1 as int);
            }
        }
        assert forall|x: int, y: int| inside(v, x, y) && #[trigger] vis@[flat(w, x, y)] && !pending(stack@, x, y) && hole != Some(
            (x, y),
        ) implies closed_at(v, spec_pixel(v, sx, sy), limit, vis@, x, y) by {
            lemma_flat(w, v.height as int, x, y);
            if (x, y) == q {
                assert(stack@[stack@.len() - 1] == (a as usize, b as usize));
                assert(pending(stack@, x, y));
            } else {
                if flat(w, x, y) == at {
                    lemma_flat_inj(w, x, y, a as int, b as int);
                }
                assert(vis0[flat(w, x, y)]);
                assert(!pending(stack0, x, y)) by {
                    if pending(stack0, x, y) {
                        let k = choose|k: int| 0 <= k < stack0.len() && stack0[k].0 == x && stack0[k].1 == y;
                        assert(stack@[k] == stack0[k]);
                    }
                }
                assert forall|a2: int, b2: int| inside(v, a2, b2) && step((x, y), (a2, b2)) && near(v, spec_pixel(v, sx, sy), limit, a2, b2) implies #[trigger] vis@[flat(w, a2, b2)] by {
                    assert(vis0[flat(w, a2, b2)]);
                    lemma_flat(w, v.height as int, a2, b2);
                }
            }
        }
        assert forall|i: int| 0 <= i < vis0.len() && vis0[i] implies #[trigger] vis@[i] by {}
        assert(vis@.len() == w * v.height);
        assert(bytes@.len() == v.rgba.len());
        assert(vis@[flat(w, sx, sy)]) by {
            lemma_flat(w, v.height as int, sx, sy);
            assert(vis0[flat(w, sx, sy)]);
        }
    }
}

/// Flood-fill the 4-connected region around `(x, y)` with `color`: every
/// pixel reachable from the seed through edge-sharing pixels each within
/// `limit` of the seed on every channel (the seed included) takes `color`,
/// alpha included; every other pixel is unchanged. A seed outside the image
/// returns the image unchanged.
#[verifier::rlimit(60)]
pub fn flood_fill_within(image: &PropImage, x: u32, y: u32, color: [u8; 4], limit: u8) -> (r: Result<
    PropImage,
    PropError,
>)
    requires
        image.wf(),
    ensures
        r matches Ok(img) && img.wf() && img@.width == image@.width && img@.height == image@.height,
        !inside(image@, x as int, y as int) ==> (r matches Ok(img) && img@ == image@),
        inside(image@, x as int, y as int) ==> (r matches Ok(img) && forall|a: int, b: int|
            inside(image@, a, b) ==> #[trigger] spec_pixel(img@, a, b) == if in_region(
                image@,
                x as int,
                y as int,
                limit,
                a,
                b,
            ) {
                color@
            } else {
                spec_pixel(image@, a, b)
            }),
{
    let ghost v = image@;
    let ghost w = v.width as int;
    let ghost h = v.height as int;
    let width = image.width();
    let height = image.height();
    if x >= width || y >= height {
        return Ok(image.duplicate());
    }
    let seed = image.pixel(x, y).unwrap();
    let mut bytes = crate::codec::thirtytwo::slice_to_vec(image.as_rgba());
    let total = bytes.len();
    let wu = width as usize;
    let hu = height as usize;
    proof {
        lemma_flat(w, h, x as int, y as int);
        assert(total == w * h * 4);
        assert(w * h <= total) by (nonlinear_arith)
            requires
                total == w * h * 4,
                w >= 0,
                h >= 0,
        ;
    }
    let n = wu * hu;
    let mut vis: Vec<bool> = Vec::new();
    while vis.len() < n
        invariant
            vis@.len() <= n,
            forall|i: int| 0 <= i < vis@.len() ==> !(#[trigger] vis@[i]),
        decreases n - vis@.len(),
    {
        vis.push(false);
    }
    let at = (y as usize) * wu + (x as usize);
    let ghost vis0 = vis@;
    let ghost bytes0 = bytes@;
    vis.set(at, true);
    let mut stack: Vec<(usize, usize)> = Vec::new();
    stack.push((x as usize, y as usize));
    let base = at * 4;
    bytes.set(base, color[0]);
    bytes.set(base + 1, color[1]);
    bytes.set(base + 2, color[2]);
    bytes.set(base + 3, color[3]);
    let ghost sx = x as int;
    let ghost sy = y as int;
    proof {
        let q = (sx, sy);
        let path = seq![q];
        assert(fill_path(v, sx, sy, limit, path));
        assert(in_region(v, sx, sy, limit, sx, sy));
        assert forall|a: int, b: int| inside(v, a, b) && #[trigger] vis@[flat(w, a, b)] implies in_region(
            v,
            sx,
            sy,
            limit,
            a,
            b,
        ) by {
            lemma_flat(w, h, a, b);
            if flat(w, a, b) == at {
                lemma_flat_inj(w, a, b, sx, sy);
            } else {
                assert(!vis0[flat(w, a, b)]);
            }
        }
        assert forall|a: int, b: int, c: int| inside(v, a, b) && 0 <= c < 4 implies #[trigger] bytes@[flat(w, a, b) * 4 + c] == if vis@[flat(w, a, b)] {
            color@[c]
        } else {
            v.rgba[flat(w, a, b) * 4 + c]
        } by {
            lemma_flat(w, h, a, b);
            if flat(w, a, b) == at {
                lemma_flat_inj(w, a, b, sx, sy);
            } else {
                assert(bytes@[flat(w, a, b) * 4 + c] == bytes0[flat(w, a, b) * 4 + c]);
            }
        }
        assert forall|a: int, b: int| inside(v, a, b) && #[trigger] vis@[flat(w, a, b)] && !pending(stack@, a, b) && None::<(int, int)> != Some(
            (a, b),
        ) implies closed_at(v, spec_pixel(v, sx, sy), limit, vis@, a, b) by {
            lemma_flat(w, h, a, b);
            if flat(w, a, b) == at {
                lemma_flat_inj(w, a, b, sx, sy);
                assert(stack@[0] == (x as usize, y as usize));
            } else {
                assert(!vis0[flat(w, a, b)]);
            }
        }
        assert(fill_inv(v, sx, sy, limit, color@, vis@, stack@, bytes@, None));
    }
    while stack.len() > 0
        invariant
            image.wf(),
            v == image@,
            w == v.width,
            h == v.height,
            wu == w,
            hu == h,
            inside(v, sx, sy),
            seed@ == spec_pixel(v, sx, sy),
            fill_inv(v, sx, sy, limit, color@, vis@, stack@, bytes@, None),
        decreases 2 * (w * h - count_set(vis@)) + stack@.len(),
    {
        proof {
            lemma_count_bound(vis@);
        }
        let ghost before = stack@;
        let (px, py) = stack.pop().unwrap();
        let ghost p = (px as int, py as int);
        proof {
            assert(before == stack@.push((px, py)));
            assert(inside(v, px as int, py as int) && vis@[flat(w, px as int, py as int)]) by {
                assert(before[before.len() - 1] == (px, py));
            }
            assert forall|k: int| 0 <= k < stack@.len() implies inside(v, (#[trigger] stack@[k]).0 as int, stack@[k].1 as int)
                && vis@[flat(w, stack@[k].0 as int, stack@[k].1 as int)] by {
                assert(stack@[k] == before[k]);
            }
            assert forall|a: int, b: int| inside(v, a, b) && #[trigger] vis@[flat(w, a, b)] && !pending(stack@, a, b) && Some(p) != Some(
                (a, b),
            ) implies closed_at(v, spec_pixel(v, sx, sy), limit, vis@, a, b) by {
                if pending(before, a, b) {
                    let k = choose|k: int| 0 <= k < before.len() && before[k].0 == a && before[k].1 == b;
                    if k < stack@.len() {
                        assert(stack@[k] == before[k]);
                    }
                }
            }
            assert(fill_inv(v, sx, sy, limit, color@, vis@, stack@, bytes@, Some(p)));
        }
        let ghost m0 = 2 * (w * h - count_set(vis@)) + stack@.len();
        let ghost vis_a = vis@;
        if px > 0 {
            visit(image, seed, limit, color, (px - 1) as u32, py as u32, &mut vis, &mut stack, &mut bytes, Ghost(sx), Ghost(sy), Ghost(Some(p)), Ghost(p));
        }
        let ghost vis_b = vis@;
        proof {
            lemma_flat(w, h, p.0, p.1);
            assert(vis@[flat(w, p.0, p.1)]);
        }
        if px + 1 < wu {
            visit(image, seed, limit, color, (px + 1) as u32, py as u32, &mut vis, &mut stack, &mut bytes, Ghost(sx), Ghost(sy), Ghost(Some(p)), Ghost(p));
        }
        let ghost vis_c = vis@;
        proof {
            lemma_flat(w, h, p.0, p.1);
            assert(vis@[flat(w, p.0, p.1)]);
        }
        if py > 0 {
            visit(image, seed, limit, color, px as u32, (py - 1) as u32, &mut vis, &mut stack, &mut bytes, Ghost(sx), Ghost(sy), Ghost(Some(p)), Ghost(p));
        }
        let ghost vis_d = vis@;
        proof {
            lemma_flat(w, h, p.0, p.1);
            assert(vis@[flat(w, p.0, p.1)]);
        }
        if py + 1 < hu {
            visit(image, seed, limit, color, px as u32, (py + 1) as u32, &mut vis, &mut stack, &mut bytes, Ghost(sx), Ghost(sy), Ghost(Some(p)), Ghost(p));
        }
        proof {
            let seedv = spec_pixel(v, sx, sy);
            assert forall|a2: int, b2: int| inside(v, a2, b2) && step(p, (a2, b2)) && near(v, seedv, limit, a2, b2) implies #[trigger] vis@[flat(w, a2, b2)] by {
                lemma_flat(w, h, a2, b2);
                if a2 == p.0 - 1 && b2 == p.1 {
                    assert(vis_b[flat(w, a2, b2)]);
                    assert(vis_c[flat(w, a2, b2)]);
                    assert(vis_d[flat(w, a2, b2)]);
                } else if a2 == p.0 + 1 && b2 == p.1 {
                    assert(vis_c[flat(w, a2, b2)]);
                    assert(vis_d[flat(w, a2, b2)]);
                } else if b2 == p.1 - 1 && a2 == p.0 {
                    assert(vis_d[flat(w, a2, b2)]);
                }
            }
            assert(closed_at(v, seedv, limit, vis@, p.0, p.1));
            assert forall|a: int, b: int| inside(v, a, b) && #[trigger] vis@[flat(w, a, b)] && !pending(stack@, a, b) && None::<(int, int)> != Some(
                (a, b),
            ) implies closed_at(v, seedv, limit, vis@, a, b) by {
                if (a, b) != p {
                    assert(Some(p) != Some((a, b)));
                }
            }
            assert(fill_inv(v, sx, sy, limit, color@, vis@, stack@, bytes@, None));
            lemma_count_bound(vis@);
        }
    }
    proof {
        let seedv = spec_pixel(v, sx, sy);
        assert forall|a: int, b: int| inside(v, a, b) && #[trigger] vis@[flat(w, a, b)] implies closed_at(v, seedv, limit, vis@, a, b) by {
            assert(!pending(stack@, a, b));
        }
        assert forall|a: int, b: int| inside(v, a, b) && in_region(v, sx, sy, limit, a, b) implies #[trigger] vis@[flat(w, a, b)] by {
            let path = choose|path: Seq<(int, int)>| #[trigger] fill_path(v, sx, sy, limit, path) && path.last() == (a, b);
            lemma_region_marked(v, sx, sy, limit, vis@, path, path.len() - 1);
        }
    }
    let ghost out = bytes@;
    match PropImage::from_rgba(width, height, bytes) {
        Ok(img) => {
            proof {
                assert forall|a: int, b: int| inside(v, a, b) implies #[trigger] spec_pixel(img@, a, b) == if in_region(v, sx, sy, limit, a, b) {
                    color@
                } else {
                    spec_pixel(v, a, b)
                } by {
                    lemma_flat(w, h, a, b);
                    let f = flat(w, a, b);
                    assert(crate::image::pixel_at(w, a, b) == f * 4);
                    assert(out[f * 4 + 0] == out[f * 4]);
                    let want = if in_region(v, sx, sy, limit, a, b) {
                        color@
                    } else {
                        spec_pixel(v, a, b)
                    };
                    assert(in_region(v, sx, sy, limit, a, b) == vis@[f]);
                    assert forall|c: int| 0 <= c < 4 implies #[trigger] spec_pixel(img@, a, b)[c] == want[c] by {
                        assert(out[flat(w, a, b) * 4 + c] == if vis@[flat(w, a, b)] {
                            color@[c]
                        } else {
                            v.rgba[flat(w, a, b) * 4 + c]
                        });
                    }
                    assert(spec_pixel(img@, a, b) =~= want);
                }
            }
            Ok(img)
        },
        Err(e) => {
            proof {
                assert(false);
            }
            Err(e)
        },
    }
}

} // verus!
