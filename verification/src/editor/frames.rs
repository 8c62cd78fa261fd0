//! Frame bookkeeping: inserting, deleting and reordering a document's frames
//! while keeping the selection on a valid frame.
//!
//! The frames are handled by index only, so the operations are generic over
//! what a frame holds.

use vstd::prelude::*;

verus! {

/// Where the selected index lands when the frame at `from` moves to `to`: the
/// selection stays on the same frame.
pub open spec fn moved_index(current: int, from: int, to: int) -> int {
    if current == from {
        to
    } else if from < current && current <= to {
        current - 1
    } else if to <= current && current < from {
        current + 1
    } else {
        current
    }
}

/// Where the selected index lands when the frame at `from` moves to `to`.
pub fn track_move(current: usize, from: usize, to: usize) -> (r: usize)
    requires
        current < usize::MAX,
    ensures
        r == moved_index(current as int, from as int, to as int),
{
    if current == from {
        to
    } else if from < current && current <= to {
        current - 1
    } else if to <= current && current < from {
        current + 1
    } else {
        current
    }
}

/// Where the selected index lands when the frame at `index` is deleted from
/// a list of `len` frames: on the same frame, or on the new last frame when
/// the selected frame was the last.
pub open spec fn index_after_delete(current: int, index: int, len: int) -> int {
    if current >= len - 1 {
        len - 2
    } else if current > index {
        current - 1
    } else {
        current
    }
}

/// Insert `frame` directly after the frame at `index`, returning its index.
pub fn insert_after<F>(frames: &mut Vec<F>, index: usize, frame: F) -> (r: usize)
    requires
        index < old(frames)@.len(),
    ensures
        r == index + 1,
        final(frames)@ == old(frames)@.insert(index + 1, frame),
{
    let n = frames.len();
    assert(index < n);
    let at = index + 1;
    frames.insert(at, frame);
    at
}

/// Delete the frame at `index`, returning it and the new selected index.
/// Refused when `index` is out of range or the frame is the only one: a
/// document always keeps at least one frame.
pub fn delete_frame<F>(frames: &mut Vec<F>, current: usize, index: usize) -> (r: Option<(F, usize)>)
    requires
        current < old(frames)@.len(),
    ensures
        (old(frames)@.len() <= 1 || index >= old(frames)@.len()) ==> r is None && final(frames)@
            == old(frames)@,
        (old(frames)@.len() > 1 && index < old(frames)@.len()) ==> ({
            &&& r matches Some(p)
            &&& p.0 == old(frames)@[index as int]
            &&& p.1 == index_after_delete(current as int, index as int, old(frames)@.len() as int)
            &&& final(frames)@ == old(frames)@.remove(index as int)
        }),
        r matches Some(p) ==> p.1 < final(frames)@.len(),
        r matches Some(p) ==> (current != index && current + 1 < old(frames)@.len()
            ==> final(frames)@[p.1 as int] == old(frames)@[current as int]),
{
    let len = frames.len();
    if len <= 1 || index >= len {
        return None;
    }
    let removed = frames.remove(index);
    let remaining = frames.len();
    let next = if current >= remaining {
        remaining - 1
    } else if current > index {
        current - 1
    } else {
        current
    };
    Some((removed, next))
}

/// Move the frame at `from` so it sits at `to`; the selection follows the
/// frame it was on. `None` (and nothing moved) when an index is out of
/// range; otherwise the new selected index.
pub fn move_frame<F>(frames: &mut Vec<F>, current: usize, from: usize, to: usize) -> (r: Option<usize>)
    requires
        current < old(frames)@.len(),
    ensures
        (from >= old(frames)@.len() || to >= old(frames)@.len()) ==> r is None && final(frames)@
            == old(frames)@,
        (from < old(frames)@.len() && to < old(frames)@.len()) ==> ({
            &&& r == Some(moved_index(current as int, from as int, to as int) as usize)
            &&& final(frames)@ == old(frames)@.remove(from as int).insert(
                to as int,
                old(frames)@[from as int],
            )
        }),
        r matches Some(c) ==> c < final(frames)@.len() && final(frames)@[c as int] == old(
            frames,
        )@[current as int],
{
    let len = frames.len();
    if from >= len || to >= len {
        return None;
    }
    if from == to {
        assert(old(frames)@.remove(from as int).insert(to as int, old(frames)@[from as int])
            =~= old(frames)@);
        return Some(current);
    }
    let ghost before = frames@;
    let frame = frames.remove(from);
    frames.insert(to, frame);
    let next = track_move(current, from, to);
    proof {
        let after = frames@;
        let mid = before.remove(from as int);
        assert(after == mid.insert(to as int, before[from as int]));
        if current != from {
            let m = if current < from { current as int } else { current - 1 };
            assert(mid[m] == before[current as int]);
        }
    }
    Some(next)
}

} // verus!
