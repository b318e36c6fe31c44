//! State cells: values bound to a call address whose writes are buffered and
//! become visible from the next revision on.
use vstd::prelude::*;

verus! {

/// The stored part of a state cell: the value committed at the start of the
/// current revision and the write waiting for the next one.
#[derive(Clone, Copy, Debug)]
pub struct CellState<T> {
    pub committed: T,
    pub pending: Option<T>,
}

/// The value a cell holds once its pending write is committed.
pub open spec fn committed_after<T>(c: CellState<T>) -> T {
    match c.pending {
        Some(v) => v,
        None => c.committed,
    }
}

impl<T: Copy> CellState<T> {
    /// A cell holding `initial`, with no write pending.
    pub fn new(initial: T) -> (r: CellState<T>)
        ensures
            r.committed == initial,
            r.pending is None,
    {
        CellState { committed: initial, pending: None }
    }

    /// The committed value: what a read during the current revision sees.
    pub fn read(&self) -> (r: T)
        ensures
            r == self.committed,
    {
        self.committed
    }

    /// The cell after a write of `value`: the committed value is kept and
    /// `value` waits for the next commit, in place of any earlier write.
    pub fn written(&self, value: T) -> (r: CellState<T>)
        ensures
            r.committed == self.committed,
            r.pending == Some(value),
    {
        CellState { committed: self.committed, pending: Some(value) }
    }
}

} // verus!
