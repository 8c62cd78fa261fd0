//! Bounded undo/redo over whole-document snapshots.
//!
//! Before a mutation the caller pushes a snapshot of the current state
//! ([`History::push`]); a new edit discards the redo branch; undo swaps the
//! current state for the most recent snapshot and redo swaps it back.
//!
//! History is bounded on two axes, both enforced by evicting the oldest past
//! snapshots first: a depth cap ([`MAX_UNDO_SNAPSHOTS`]) and a memory cap
//! ([`MAX_UNDO_BYTES`]) measured over the bytes of every state held in both
//! stacks. The newest snapshot is always kept, even when it alone exceeds the
//! byte cap; a depth cap of zero disables history entirely.
//!
//! The history is generic over the stored state: each snapshot travels with
//! the number of bytes it holds, which is all the caps read of it.

use vstd::prelude::*;

verus! {

/// Maximum number of retained snapshots (undo plus redo), oldest evicted first.
pub const MAX_UNDO_SNAPSHOTS: usize = 32;

/// Maximum retained snapshot memory in bytes, oldest evicted first.
pub const MAX_UNDO_BYTES: usize = 134217728;

/// The bytes held by a list of snapshots.
pub open spec fn total<T>(s: Seq<(T, usize)>) -> nat
    decreases s.len(),
{
    if s.len() == 0 {
        0
    } else {
        total(s.drop_last()) + s.last().1 as nat
    }
}

/// The abstract history: the undo stack (oldest first), the redo stack (the
/// next state to redo last) and the caps.
pub struct HistoryView<T> {
    pub undo: Seq<(T, usize)>,
    pub redo: Seq<(T, usize)>,
    pub depth_cap: nat,
    pub byte_cap: nat,
}

/// Whether the oldest undo snapshot must go: past the depth cap, or past the
/// byte cap with more than one snapshot left.
pub open spec fn must_evict<T>(undo: Seq<(T, usize)>, redo: Seq<(T, usize)>, depth_cap: nat, byte_cap: nat) -> bool {
    undo.len() > depth_cap || (total(undo) + total(redo) > byte_cap && undo.len() > 1)
}

/// The undo stack once its oldest snapshots are evicted until both caps hold.
pub open spec fn trimmed<T>(undo: Seq<(T, usize)>, redo: Seq<(T, usize)>, depth_cap: nat, byte_cap: nat) -> Seq<(T, usize)>
    decreases undo.len(),
{
    if undo.len() > 0 && must_evict(undo, redo, depth_cap, byte_cap) {
        trimmed(undo.drop_first(), redo, depth_cap, byte_cap)
    } else {
        undo
    }
}

/// What pushing `(state, bytes)` makes of a history.
pub open spec fn spec_push<T>(v: HistoryView<T>, state: T, bytes: usize) -> HistoryView<T> {
    HistoryView {
        undo: trimmed(v.undo.push((state, bytes)), Seq::empty(), v.depth_cap, v.byte_cap),
        redo: Seq::empty(),
        ..v
    }
}

/// What undoing from `current` makes of a history, and the state it gives.
pub open spec fn spec_undo<T>(v: HistoryView<T>, current: (T, usize)) -> (HistoryView<T>, Option<(T, usize)>) {
    if v.undo.len() == 0 {
        (v, None)
    } else {
        (HistoryView { undo: v.undo.drop_last(), redo: v.redo.push(current), ..v }, Some(v.undo.last()))
    }
}

/// What redoing from `current` makes of a history, and the state it gives.
pub open spec fn spec_redo<T>(v: HistoryView<T>, current: (T, usize)) -> (HistoryView<T>, Option<(T, usize)>) {
    if v.redo.len() == 0 {
        (v, None)
    } else {
        (HistoryView { undo: v.undo.push(current), redo: v.redo.drop_last(), ..v }, Some(v.redo.last()))
    }
}

/// A bounded two-stack undo/redo history.
#[derive(Debug, Clone)]
pub struct History<T> {
    undo: Vec<(T, usize)>,
    redo: Vec<(T, usize)>,
    depth_cap: usize,
    byte_cap: usize,
    undo_bytes: usize,
    redo_bytes: usize,
}

impl<T> View for History<T> {
    type V = HistoryView<T>;

    closed spec fn view(&self) -> HistoryView<T> {
        HistoryView {
            undo: self.undo@,
            redo: self.redo@,
            depth_cap: self.depth_cap as nat,
            byte_cap: self.byte_cap as nat,
        }
    }
}

proof fn lemma_total_push<T>(s: Seq<(T, usize)>, x: (T, usize))
    ensures
        total(s.push(x)) == total(s) + x.1,
{
    assert(s.push(x).drop_last() =~= s);
}

proof fn lemma_total_drop_first<T>(s: Seq<(T, usize)>)
    requires
        s.len() > 0,
    ensures
        total(s) == s[0].1 + total(s.drop_first()),
    decreases s.len(),
{
    if s.len() > 1 {
        lemma_total_drop_first(s.drop_last());
        assert(s.drop_last().drop_first() =~= s.drop_first().drop_last());
        assert(s.drop_first().last() == s.last());
    } else {
        assert(s.drop_first() =~= Seq::<(T, usize)>::empty());
        assert(s.drop_last() =~= Seq::<(T, usize)>::empty());
    }
}

/// Trimming keeps a suffix of the undo stack, ends with both caps holding
/// (the byte cap only while more than one snapshot is left), and keeps the
/// newest snapshot unless the depth cap is zero.
pub proof fn lemma_trimmed<T>(undo: Seq<(T, usize)>, redo: Seq<(T, usize)>, depth_cap: nat, byte_cap: nat)
    ensures
        ({
            let t = trimmed(undo, redo, depth_cap, byte_cap);
            &&& t.len() <= depth_cap
            &&& (total(t) + total(redo) <= byte_cap || t.len() <= 1)
            &&& t.len() <= undo.len()
            &&& t == undo.subrange(undo.len() - t.len(), undo.len() as int)
            &&& (depth_cap > 0 && undo.len() > 0) ==> t.len() >= 1
        }),
    decreases undo.len(),
{
    if undo.len() > 0 && must_evict(undo, redo, depth_cap, byte_cap) {
        lemma_trimmed(undo.drop_first(), redo, depth_cap, byte_cap);
        let t = trimmed(undo, redo, depth_cap, byte_cap);
        assert(undo.drop_first().subrange(undo.len() - 1 - t.len(), undo.len() - 1) =~= undo.subrange(
            undo.len() - t.len(),
            undo.len() as int,
        ));
    } else {
        assert(undo.subrange(0, undo.len() as int) =~= undo);
    }
}

/// An undo followed by a redo gives back the state undo was handed and
/// leaves the history as it was.
pub proof fn lemma_undo_then_redo<T>(v: HistoryView<T>, current: (T, usize))
    requires
        v.undo.len() > 0,
    ensures
        ({
            let (v1, got) = spec_undo(v, current);
            &&& got == Some(v.undo.last())
            &&& spec_redo(v1, v.undo.last()) == (v, Some(current))
        }),
{
    let (v1, got) = spec_undo(v, current);
    assert(v1.undo.push(v.undo.last()) =~= v.undo);
    assert(v1.redo.drop_last() =~= v.redo);
}

/// A redo followed by an undo gives back the state redo was handed and
/// leaves the history as it was.
pub proof fn lemma_redo_then_undo<T>(v: HistoryView<T>, current: (T, usize))
    requires
        v.redo.len() > 0,
    ensures
        ({
            let (v1, got) = spec_redo(v, current);
            &&& got == Some(v.redo.last())
            &&& spec_undo(v1, v.redo.last()) == (v, Some(current))
        }),
{
    let (v1, got) = spec_redo(v, current);
    assert(v1.redo.push(v.redo.last()) =~= v.redo);
    assert(v1.undo.drop_last() =~= v.undo);
}

impl<T> History<T> {
    /// The byte counters match the stacks.
    pub closed spec fn wf(self) -> bool {
        &&& self.undo_bytes as nat == total(self.undo@)
        &&& self.redo_bytes as nat == total(self.redo@)
        &&& self.undo_bytes + self.redo_bytes <= usize::MAX
    }

    /// The default history: [`MAX_UNDO_SNAPSHOTS`] deep and [`MAX_UNDO_BYTES`]
    /// large.
    pub fn new() -> (r: Self)
        ensures
            r.wf(),
            r@ == (HistoryView::<T> {
                undo: Seq::empty(),
                redo: Seq::empty(),
                depth_cap: MAX_UNDO_SNAPSHOTS as nat,
                byte_cap: MAX_UNDO_BYTES as nat,
            }),
    {
        History::with_caps(MAX_UNDO_SNAPSHOTS, MAX_UNDO_BYTES)
    }

    /// A history with explicit caps; a `depth_cap` of zero disables undo.
    pub fn with_caps(depth_cap: usize, byte_cap: usize) -> (r: Self)
        ensures
            r.wf(),
            r@ == (HistoryView::<T> {
                undo: Seq::empty(),
                redo: Seq::empty(),
                depth_cap: depth_cap as nat,
                byte_cap: byte_cap as nat,
            }),
    {
        let r = History {
            undo: Vec::new(),
            redo: Vec::new(),
            depth_cap,
            byte_cap,
            undo_bytes: 0,
            redo_bytes: 0,
        };
        assert(total(r.undo@) == 0 && total(r.redo@) == 0);
        r
    }

    /// The depth cap this history was built with.
    pub fn depth_cap(&self) -> (r: usize)
        ensures
            r == self@.depth_cap,
    {
        self.depth_cap
    }

    /// The memory cap this history was built with.
    pub fn byte_cap(&self) -> (r: usize)
        ensures
            r == self@.byte_cap,
    {
        self.byte_cap
    }

    /// Retained snapshots across both stacks.
    pub fn len(&self) -> (r: usize)
        requires
            self@.undo.len() + self@.redo.len() <= usize::MAX,
        ensures
            r == self@.undo.len() + self@.redo.len(),
    {
        self.undo.len() + self.redo.len()
    }

    /// Whether no snapshot is retained.
    pub fn is_empty(&self) -> (r: bool)
        ensures
            r == (self@.undo.len() == 0 && self@.redo.len() == 0),
    {
        self.undo.len() == 0 && self.redo.len() == 0
    }

    /// Snapshots available to undo.
    pub fn undo_len(&self) -> (r: usize)
        ensures
            r == self@.undo.len(),
    {
        self.undo.len()
    }

    /// Snapshots available to redo.
    pub fn redo_len(&self) -> (r: usize)
        ensures
            r == self@.redo.len(),
    {
        self.redo.len()
    }

    /// Bytes held by every retained snapshot.
    pub fn memory_bytes(&self) -> (r: usize)
        requires
            self.wf(),
        ensures
            r == total(self@.undo) + total(self@.redo),
    {
        self.undo_bytes + self.redo_bytes
    }

    /// Whether [`History::undo`] would return a state.
    pub fn can_undo(&self) -> (r: bool)
        ensures
            r == (self@.undo.len() > 0),
    {
        self.undo.len() > 0
    }

    /// Whether [`History::redo`] would return a state.
    pub fn can_redo(&self) -> (r: bool)
        ensures
            r == (self@.redo.len() > 0),
    {
        self.redo.len() > 0
    }

    /// Drop every snapshot.
    pub fn clear(&mut self)
        ensures
            final(self).wf(),
            final(self)@ == (HistoryView::<T> { undo: Seq::empty(), redo: Seq::empty(), ..old(self)@ }),
    {
        self.undo = Vec::new();
        self.redo = Vec::new();
        self.undo_bytes = 0;
        self.redo_bytes = 0;
        assert(total(self.undo@) == 0 && total(self.redo@) == 0);
    }

    /// Push `state` (holding `bytes`) as the state to return to, discarding
    /// the redo branch; then evict the oldest snapshots until both caps hold.
    /// The newest snapshot is kept unless the depth cap is zero.
    pub fn push(&mut self, state: T, bytes: usize)
        requires
            old(self).wf(),
            total(old(self)@.undo) + bytes <= usize::MAX,
        ensures
            final(self).wf(),
            final(self)@ == spec_push(old(self)@, state, bytes),
            final(self)@.undo.len() <= final(self)@.depth_cap,
            total(final(self)@.undo) <= final(self)@.byte_cap || final(self)@.undo.len() <= 1,
            final(self)@.depth_cap > 0 ==> final(self)@.undo.last() == (state, bytes),
    {
        let ghost v = self@;
        self.redo = Vec::new();
        self.redo_bytes = 0;
        assert(total(self.redo@) == 0);
        self.undo.push((state, bytes));
        self.undo_bytes = self.undo_bytes + bytes;
        proof {
            lemma_total_push(v.undo, (state, bytes));
        }
        let ghost pushed = self.undo@;
        while self.undo.len() > self.depth_cap || (self.undo_bytes > self.byte_cap
            && self.undo.len() > 1)
            invariant
                self.undo_bytes as nat == total(self.undo@),
                self.redo@ == Seq::<(T, usize)>::empty(),
                self.redo_bytes == 0,
                total(self.redo@) == 0,
                self.depth_cap == v.depth_cap,
                self.byte_cap == v.byte_cap,
                trimmed(self.undo@, self.redo@, self.depth_cap as nat, self.byte_cap as nat)
                    == trimmed(pushed, Seq::<(T, usize)>::empty(), v.depth_cap, v.byte_cap),
            decreases self.undo@.len(),
        {
            proof {
                lemma_total_drop_first(self.undo@);
            }
            let ghost before = self.undo@;
            let evicted = self.undo.remove(0);
            self.undo_bytes = self.undo_bytes - evicted.1;
            assert(self.undo@ =~= before.drop_first());
        }
        proof {
            lemma_trimmed(pushed, Seq::<(T, usize)>::empty(), v.depth_cap, v.byte_cap);
            let t = trimmed(pushed, Seq::<(T, usize)>::empty(), v.depth_cap, v.byte_cap);
            if t.len() >= 1 {
                assert(t.last() == pushed.last());
            }
        }
    }

    /// Swap `current` (holding `bytes`) for the most recent snapshot and
    /// return that snapshot with its bytes; `current` moves onto the redo
    /// stack. `None` when there is nothing to undo.
    pub fn undo(&mut self, current: T, bytes: usize) -> (r: Option<(T, usize)>)
        requires
            old(self).wf(),
            old(self)@.undo.len() > 0 ==> total(old(self)@.undo) - old(self)@.undo.last().1
                + total(old(self)@.redo) + bytes <= usize::MAX,
        ensures
            final(self).wf(),
            (final(self)@, r) == spec_undo(old(self)@, (current, bytes)),
    {
        if self.undo.len() == 0 {
            return None;
        }
        let ghost v = self@;
        let previous = self.undo.pop().unwrap();
        proof {
            assert(v.undo.drop_last().push(v.undo.last()) =~= v.undo);
            lemma_total_push(v.undo.drop_last(), v.undo.last());
            lemma_total_push(v.redo, (current, bytes));
        }
        self.undo_bytes = self.undo_bytes - previous.1;
        self.redo_bytes = self.redo_bytes + bytes;
        self.redo.push((current, bytes));
        Some(previous)
    }

    /// Swap `current` (holding `bytes`) for the most recently undone
    /// snapshot and return it with its bytes; `current` moves back onto the
    /// undo stack. `None` when there is nothing to redo.
    pub fn redo(&mut self, current: T, bytes: usize) -> (r: Option<(T, usize)>)
        requires
            old(self).wf(),
            old(self)@.redo.len() > 0 ==> total(old(self)@.undo) + total(old(self)@.redo)
                - old(self)@.redo.last().1 + bytes <= usize::MAX,
        ensures
            final(self).wf(),
            (final(self)@, r) == spec_redo(old(self)@, (current, bytes)),
    {
        if self.redo.len() == 0 {
            return None;
        }
        let ghost v = self@;
        let next = self.redo.pop().unwrap();
        proof {
            assert(v.redo.drop_last().push(v.redo.last()) =~= v.redo);
            lemma_total_push(v.redo.drop_last(), v.redo.last());
            lemma_total_push(v.undo, (current, bytes));
        }
        self.redo_bytes = self.redo_bytes - next.1;
        self.undo_bytes = self.undo_bytes + bytes;
        self.undo.push((current, bytes));
        Some(next)
    }
}

} // verus!
