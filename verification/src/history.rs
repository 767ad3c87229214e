//! Undo/redo history: two stacks of snapshots, the undo stack capped at
//! [`HISTORY_LIMIT`] entries.

use vstd::prelude::*;

verus! {

/// Max snapshots kept on the undo stack (older ones are dropped).
pub const HISTORY_LIMIT: usize = 100;

/// Undo/redo history. Each entry is a snapshot of whatever the caller
/// records (the page list, for the canvas).
pub struct History<T> {
    pub undo: Vec<T>,
    pub redo: Vec<T>,
}

/// The undo stack after recording `snapshot`: pushed on top, and the oldest
/// entry dropped once the stack would exceed the limit.
pub open spec fn recorded<T>(undo: Seq<T>, snapshot: T) -> Seq<T> {
    let pushed = undo.push(snapshot);
    if pushed.len() > HISTORY_LIMIT {
        pushed.subrange(1, pushed.len() as int)
    } else {
        pushed
    }
}

/// One history step as a function of the two stacks: `(undo, redo, applied)`
/// after stepping forward (redo) or backward (undo) from `current`.
pub open spec fn stepped<T>(undo: Seq<T>, redo: Seq<T>, current: T, forward: bool) -> (
    Seq<T>,
    Seq<T>,
    Option<T>,
) {
    if forward {
        if redo.len() == 0 {
            (undo, redo, None)
        } else {
            (undo.push(current), redo.drop_last(), Some(redo.last()))
        }
    } else {
        if undo.len() == 0 {
            (undo, redo, None)
        } else {
            (undo.drop_last(), redo.push(current), Some(undo.last()))
        }
    }
}

impl<T> History<T> {
    /// An empty history.
    pub fn new() -> (h: Self)
        ensures
            h.undo@ == Seq::<T>::empty(),
            h.redo@ == Seq::<T>::empty(),
    {
        History { undo: Vec::new(), redo: Vec::new() }
    }

    /// Records `snapshot` as a new undo point and invalidates the redo stack.
    pub fn record(&mut self, snapshot: T)
        ensures
            final(self).undo@ == recorded(old(self).undo@, snapshot),
            final(self).redo@ == Seq::<T>::empty(),
    {
        self.undo.push(snapshot);
        if self.undo.len() > HISTORY_LIMIT {
            self.undo.remove(0);
        }
        self.redo.clear();
    }

    /// Steps one entry: pops the target stack (redo if `forward`, else undo)
    /// and pushes `current` onto the opposite one. Returns the snapshot to
    /// apply, or `None` (dropping `current`, both stacks untouched) when the
    /// target stack is empty.
    pub fn step(&mut self, current: T, forward: bool) -> (r: Option<T>)
        ensures
            (final(self).undo@, final(self).redo@, r) == stepped(
                old(self).undo@,
                old(self).redo@,
                current,
                forward,
            ),
    {
        if forward {
            match self.redo.pop() {
                Some(prev) => {
                    self.undo.push(current);
                    Some(prev)
                },
                None => None,
            }
        } else {
            match self.undo.pop() {
                Some(prev) => {
                    self.redo.push(current);
                    Some(prev)
                },
                None => None,
            }
        }
    }
}

impl<T> Default for History<T> {
    /// An empty history.
    fn default() -> (h: Self)
        ensures
            h.undo@ == Seq::<T>::empty(),
            h.redo@ == Seq::<T>::empty(),
    {
        History::new()
    }
}

/// Undoing a change and then redoing it restores both stacks and gives back
/// the state that was current before the undo.
pub proof fn lemma_undo_then_redo<T>(undo: Seq<T>, redo: Seq<T>, current: T)
    requires
        undo.len() > 0,
    ensures
        ({
            let (u1, r1, back) = stepped(undo, redo, current, false);
            stepped(u1, r1, back.unwrap(), true) == (undo, redo, Some(current))
        }),
{
    let (u1, r1, back) = stepped(undo, redo, current, false);
    assert(u1.push(back.unwrap()) =~= undo);
    assert(r1.drop_last() =~= redo);
}

/// Redoing a change and then undoing it again restores both stacks and
/// gives back the state that was current before the redo.
pub proof fn lemma_redo_then_undo<T>(undo: Seq<T>, redo: Seq<T>, current: T)
    requires
        redo.len() > 0,
    ensures
        ({
            let (u1, r1, fwd) = stepped(undo, redo, current, true);
            stepped(u1, r1, fwd.unwrap(), false) == (undo, redo, Some(current))
        }),
{
    let (u1, r1, fwd) = stepped(undo, redo, current, true);
    assert(r1.push(fwd.unwrap()) =~= redo);
    assert(u1.drop_last() =~= undo);
}

/// Recording a new change leaves nothing to redo, and the recorded snapshot
/// is the one the next undo gives back.
pub proof fn lemma_record_then_step<T>(undo: Seq<T>, snapshot: T, current: T)
    ensures
        stepped(recorded(undo, snapshot), Seq::<T>::empty(), current, true).2 == None::<T>,
        stepped(recorded(undo, snapshot), Seq::<T>::empty(), current, false).2 == Some(snapshot),
{
}

/// The undo stack never grows past the limit by recording.
pub proof fn lemma_record_keeps_cap<T>(undo: Seq<T>, snapshot: T)
    requires
        undo.len() <= HISTORY_LIMIT,
    ensures
        recorded(undo, snapshot).len() <= HISTORY_LIMIT,
        undo.len() < HISTORY_LIMIT ==> recorded(undo, snapshot).len() == undo.len() + 1,
{
}

} // verus!
