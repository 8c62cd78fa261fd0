//! Playback modes and baking plans for multi-frame documents.
//!
//! Given `n` frames and the tick `t` since playback started:
//!
//! * [`PlaybackMode::Once`] — `0, 1, ..., n-1`, then playback stops (`None`).
//! * [`PlaybackMode::Loop`] — `0, 1, ..., n-1`, repeating forever.
//! * [`PlaybackMode::PingPong`] — `0, 1, ..., n-1, n-2, ..., 1`, repeating.
//! * [`PlaybackMode::Reverse`] — `n-1, n-2, ..., 0`, repeating.
//!
//! A frame count of zero has no frame to show, so every mode returns `None`.
//! Baking turns a mode into explicit frames; a ping-pong over `1,2,3` bakes to
//! `1,2,3,2,1`, and a bake longer than [`MAX_BAKE_FRAMES`] is refused.

use vstd::prelude::*;

verus! {

/// Milliseconds between preview ticks: ten frames a second.
pub const PLAYBACK_TICK_MS: u64 = 100;

/// The bake cap, in seconds of playback.
pub const MAX_BAKE_SECONDS: u64 = 15;

/// The bake cap in frames: fifteen seconds at one frame per tick.
pub const MAX_BAKE_FRAMES: usize = 150;

/// Which frame order a preview plays.
#[derive(Debug, Clone, Copy, PartialEq, Eq, Hash, Structural)]
pub enum PlaybackMode {
    /// Play forward once, then stop.
    Once,
    /// Play forward forever.
    Loop,
    /// Play forward then back, forever.
    PingPong,
    /// Play backward forever.
    Reverse,
}

/// The frame a mode shows at `tick` among `n` frames.
pub open spec fn spec_frame_at(mode: PlaybackMode, n: int, tick: int) -> Option<int> {
    if n <= 0 {
        None
    } else {
        match mode {
            PlaybackMode::Once => if tick < n {
                Some(tick)
            } else {
                None
            },
            PlaybackMode::Loop => Some(tick % n),
            PlaybackMode::PingPong => if n == 1 {
                Some(0)
            } else {
                let period = 2 * (n - 1);
                let position = tick % period;
                if position < n {
                    Some(position)
                } else {
                    Some(period - position)
                }
            },
            PlaybackMode::Reverse => Some(n - 1 - tick % n),
        }
    }
}

/// How many ticks of frames [`PlaybackMode::frames`] returns.
pub open spec fn frames_len(mode: PlaybackMode, n: int, ticks: int) -> int {
    if n <= 0 {
        0
    } else {
        match mode {
            PlaybackMode::Once => if ticks < n {
                ticks
            } else {
                n
            },
            _ => ticks,
        }
    }
}

/// The frame a mode shows at a tick, known to exist.
pub open spec fn shown(mode: PlaybackMode, n: int, tick: int) -> int {
    match spec_frame_at(mode, n, tick) {
        Some(i) => i,
        None => 0,
    }
}

impl PlaybackMode {
    /// The frame index this mode shows at `tick`; `None` when there is no
    /// frame to show or a [`PlaybackMode::Once`] run has finished.
    pub fn frame_at(self, frame_count: usize, tick: u64) -> (r: Option<usize>)
        requires
            self == PlaybackMode::PingPong ==> frame_count - 1 <= u64::MAX / 2,
        ensures
            match spec_frame_at(self, frame_count as int, tick as int) {
                Some(i) => r == Some(i as usize) && 0 <= i < frame_count,
                None => r is None,
            },
    {
        if frame_count == 0 {
            return None;
        }
        let count = frame_count as u64;
        match self {
            PlaybackMode::Once => if tick < count {
                Some(tick as usize)
            } else {
                None
            },
            PlaybackMode::Loop => Some((tick % count) as usize),
            PlaybackMode::PingPong => {
                if frame_count == 1 {
                    return Some(0);
                }
                let period = 2 * (count - 1);
                let position = tick % period;
                if position < count {
                    Some(position as usize)
                } else {
                    Some((period - position) as usize)
                }
            },
            PlaybackMode::Reverse => Some((count - 1 - (tick % count)) as usize),
        }
    }

    /// The indices this mode shows over `ticks` ticks, in order.
    /// [`PlaybackMode::Once`] stops at the end, so its result is shorter.
    pub fn frames(self, frame_count: usize, ticks: u64) -> (r: Vec<usize>)
        requires
            self == PlaybackMode::PingPong ==> frame_count - 1 <= u64::MAX / 2,
        ensures
            r@.len() == frames_len(self, frame_count as int, ticks as int),
            forall|t: int|
                0 <= t < r@.len() ==> r@[t] as int == shown(self, frame_count as int, t),
    {
        let mut out: Vec<usize> = Vec::new();
        if frame_count == 0 {
            return out;
        }
        let limit: u64 = match self {
            PlaybackMode::Once => if ticks < frame_count as u64 {
                ticks
            } else {
                frame_count as u64
            },
            _ => ticks,
        };
        let mut t: u64 = 0;
        while t < limit
            invariant
                t <= limit,
                limit == frames_len(self, frame_count as int, ticks as int),
                frame_count > 0,
                self == PlaybackMode::PingPong ==> frame_count - 1 <= u64::MAX / 2,
                out@.len() == t,
                forall|j: int|
                    0 <= j < t ==> out@[j] as int == shown(self, frame_count as int, j),
            decreases limit - t,
        {
            match self.frame_at(frame_count, t) {
                Some(i) => {
                    out.push(i);
                },
                None => {
                    out.push(0);
                },
            }
            t = t + 1;
        }
        out
    }
}

/// The frame sequence a bake produces, as source-frame indices.
pub open spec fn spec_bake_order(n: int, mode: PlaybackMode) -> Seq<int> {
    let forward = Seq::new(n as nat, |i: int| i);
    match mode {
        PlaybackMode::Once | PlaybackMode::Loop => forward,
        PlaybackMode::Reverse => Seq::new(n as nat, |i: int| n - 1 - i),
        PlaybackMode::PingPong => if n > 1 {
            forward + Seq::new((n - 1) as nat, |i: int| n - 2 - i)
        } else {
            forward
        },
    }
}

/// The frame sequence a bake of `mode` over `frame_count` frames produces:
/// once and loop are the document's own order, reverse is that order
/// backwards, and ping-pong goes forward through every frame, then back down
/// to the first.
pub fn bake_order(frame_count: usize, mode: PlaybackMode) -> (r: Vec<usize>)
    ensures
        r@.len() == spec_bake_order(frame_count as int, mode).len(),
        forall|i: int|
            0 <= i < r@.len() ==> r@[i] as int == spec_bake_order(frame_count as int, mode)[i],
{
    let ghost expected = spec_bake_order(frame_count as int, mode);
    let mut out: Vec<usize> = Vec::new();
    let mut i: usize = 0;
    let reverse = match mode {
        PlaybackMode::Reverse => true,
        _ => false,
    };
    while i < frame_count
        invariant
            i <= frame_count,
            out@.len() == i,
            forall|j: int|
                0 <= j < i ==> out@[j] as int == (if reverse {
                    frame_count - 1 - j
                } else {
                    j
                }),
        decreases frame_count - i,
    {
        if reverse {
            out.push(frame_count - 1 - i);
        } else {
            out.push(i);
        }
        i = i + 1;
    }
    let is_ping_pong = match mode {
        PlaybackMode::PingPong => true,
        _ => false,
    };
    if is_ping_pong && frame_count > 1 {
        let mut k: usize = 0;
        while k < frame_count - 1
            invariant
                frame_count > 1,
                k <= frame_count - 1,
                out@.len() == frame_count + k,
                forall|j: int| 0 <= j < frame_count ==> out@[j] as int == j,
                forall|j: int|
                    frame_count <= j < frame_count + k ==> #[trigger] out@[j] as int == 2 * frame_count
                        - 2 - j,
            decreases frame_count - 1 - k,
        {
            out.push(frame_count - 2 - k);
            k = k + 1;
        }
    }
    out
}

/// How many frames a bake produces, saturating.
pub open spec fn spec_bake_len(n: int, mode: PlaybackMode) -> int {
    match mode {
        PlaybackMode::PingPong => {
            let doubled = if 2 * n > usize::MAX {
                usize::MAX as int
            } else {
                2 * n
            };
            if doubled < 1 {
                0
            } else {
                doubled - 1
            }
        },
        _ => n,
    }
}

/// How many frames a bake of `mode` over `frame_count` frames would produce;
/// a count so large that doubling would overflow reports `usize::MAX`.
pub fn bake_len(frame_count: usize, mode: PlaybackMode) -> (r: usize)
    ensures
        r == spec_bake_len(frame_count as int, mode),
{
    match mode {
        PlaybackMode::PingPong => {
            let doubled = if frame_count > usize::MAX / 2 {
                usize::MAX
            } else {
                frame_count * 2
            };
            doubled.saturating_sub(1)
        },
        _ => frame_count,
    }
}

/// Whether baking would exceed [`MAX_BAKE_FRAMES`] and so be refused.
pub fn bake_exceeds_cap(frame_count: usize, mode: PlaybackMode) -> (r: bool)
    ensures
        r == (spec_bake_len(frame_count as int, mode) > MAX_BAKE_FRAMES),
{
    bake_len(frame_count, mode) > MAX_BAKE_FRAMES
}

/// What a successful bake did.
#[derive(Debug, Clone, Copy, PartialEq, Eq, Structural)]
pub struct BakeOutcome {
    /// Frames the bake appended.
    pub added: usize,
    /// The document's frame count after the bake.
    pub total: usize,
}

/// Where a tracked position lands after `move_frame(from, to)`: the moved
/// frame lands at `to`, frames between shift by one, the rest stand still.
pub open spec fn shifted(p: int, from: int, to: int) -> int {
    if from == to {
        p
    } else if p == from {
        to
    } else if from < p && p <= to {
        p - 1
    } else if to <= p && p < from {
        p + 1
    } else {
        p
    }
}

/// Follow tracked frame positions through a `move_frame(from, to)`.
pub fn shift_positions(positions: &mut Vec<usize>, from: usize, to: usize)
    ensures
        final(positions)@.len() == old(positions)@.len(),
        forall|i: int|
            0 <= i < final(positions)@.len() ==> final(positions)@[i] as int == shifted(
                old(positions)@[i] as int,
                from as int,
                to as int,
            ),
{
    if from == to {
        return;
    }
    let n = positions.len();
    let mut i: usize = 0;
    while i < n
        invariant
            n == positions@.len(),
            n == old(positions)@.len(),
            i <= n,
            from != to,
            forall|j: int|
                0 <= j < i ==> positions@[j] as int == shifted(
                    old(positions)@[j] as int,
                    from as int,
                    to as int,
                ),
            forall|j: int| i <= j < n ==> positions@[j] == old(positions)@[j],
        decreases n - i,
    {
        let p = positions[i];
        let q = if p == from {
            to
        } else if from < p && p <= to {
            p - 1
        } else if to <= p && p < from {
            p + 1
        } else {
            p
        };
        positions.set(i, q);
        i = i + 1;
    }
}

} // verus!
