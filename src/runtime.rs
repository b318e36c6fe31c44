//! The revision engine: one revision commits pending writes, clears the
//! marks, lets the root function visit call sites, then sweeps what was not
//! visited.
use vstd::prelude::*;
use crate::address::{CallAddress, CallStack, Frame};
use crate::memo::{InitFailure, committed_all, memo_step, swept, unmarked, MemoEntry, MemoOutcome, MemoStore, StoreMap, stale_keys};
use crate::state::CellState;

verus! {

/// Why a revision could not start or end.
#[derive(PartialEq, Eq, Structural, Clone, Copy, Debug)]
pub enum RunError {
    /// A revision is already running: revisions do not nest.
    AlreadyRunning,
    /// No revision is running.
    NotRunning,
    /// The revision counter cannot grow any further.
    RevisionsExhausted,
}

/// What the end of a revision hands back.
pub struct RevisionEnd<V, T> {
    /// The revision that ended.
    pub revision: u64,
    /// Memoized values whose call sites were not visited, for disposal.
    pub disposed: Vec<MemoEntry<V>>,
    /// State cells whose call sites were not visited.
    pub dropped_cells: Vec<MemoEntry<CellState<T>>>,
    /// Whether a cell was written since the revision started, so that another
    /// revision is due.
    pub invalidated: bool,
}

/// The runtime: call nesting, memoized values, state cells and the revision
/// counter.
pub struct Runtime<V, T> {
    calls: CallStack,
    memos: MemoStore<V>,
    cells: MemoStore<CellState<T>>,
    revision: u64,
    running: bool,
    invalidated: bool,
}

impl<V, T: Copy> Runtime<V, T> {
    pub closed spec fn position(&self) -> Seq<Frame> {
        self.calls@
    }

    pub closed spec fn memos(&self) -> StoreMap<V> {
        self.memos@
    }

    pub closed spec fn cells(&self) -> StoreMap<CellState<T>> {
        self.cells@
    }

    pub closed spec fn revision(&self) -> u64 {
        self.revision
    }

    pub closed spec fn running(&self) -> bool {
        self.running
    }

    pub closed spec fn invalidated(&self) -> bool {
        self.invalidated
    }

    /// Both stores are well formed, and every cell is stored under the
    /// fingerprint 0.
    pub closed spec fn wf(&self) -> bool {
        &&& self.memos.wf()
        &&& self.cells.wf()
        &&& forall|k: Seq<Frame>| #[trigger] self.cells@.contains_key(k) ==> self.cells@[k].fingerprint == 0
    }

    /// A runtime at revision 0, idle, with nothing stored.
    pub fn new() -> (r: Runtime<V, T>)
        ensures
            r.wf(),
            r.position() == Seq::<Frame>::empty(),
            r.memos() == Map::<Seq<Frame>, crate::memo::Record<V>>::empty(),
            r.cells() == Map::<Seq<Frame>, crate::memo::Record<CellState<T>>>::empty(),
            r.revision() == 0,
            !r.running(),
            !r.invalidated(),
    {
        Runtime {
            calls: CallStack::new(),
            memos: MemoStore::new(),
            cells: MemoStore::new(),
            revision: 0,
            running: false,
            invalidated: false,
        }
    }

    /// The current revision.
    pub fn current_revision(&self) -> (r: u64)
        ensures
            r == self.revision(),
    {
        self.revision
    }

    /// Whether a revision is running.
    pub fn is_running(&self) -> (r: bool)
        ensures
            r == self.running(),
    {
        self.running
    }

    /// Whether a cell was written since the current revision started.
    pub fn is_invalidated(&self) -> (r: bool)
        ensures
            r == self.invalidated(),
    {
        self.invalidated
    }

    /// Starts a revision: commits every pending write, clears every mark,
    /// returns to the root of the call tree and counts the new revision.
    pub fn begin_revision(&mut self) -> (r: Result<u64, RunError>)
        requires
            old(self).wf(),
        ensures
            final(self).wf(),
            old(self).running() ==> r == Err::<u64, RunError>(RunError::AlreadyRunning)
                && *final(self) == *old(self),
            !old(self).running() && old(self).revision() == u64::MAX ==> r == Err::<u64, RunError>(
                RunError::RevisionsExhausted,
            ) && *final(self) == *old(self),
            !old(self).running() && old(self).revision() < u64::MAX ==> {
                &&& r == Ok::<u64, RunError>((old(self).revision() + 1) as u64)
                &&& final(self).revision() == old(self).revision() + 1
                &&& final(self).running()
                &&& !final(self).invalidated()
                &&& final(self).position() == Seq::<Frame>::empty()
                &&& final(self).memos() == unmarked(old(self).memos())
                &&& final(self).cells() == unmarked(committed_all(old(self).cells()))
            },
    {
        if self.running {
            return Err(RunError::AlreadyRunning);
        }
        if self.revision == u64::MAX {
            return Err(RunError::RevisionsExhausted);
        }
        self.cells.commit_all();
        self.cells.unmark_all();
        self.memos.unmark_all();
        self.calls = CallStack::new();
        self.revision = self.revision + 1;
        self.running = true;
        self.invalidated = false;
        Ok(self.revision)
    }

    /// Enters a nested call at `site` with `slot`.
    pub fn enter(&mut self, site: u64, slot: u64) -> (r: CallAddress)
        requires
            old(self).wf(),
        ensures
            final(self).wf(),
            r@ == old(self).position().push(Frame { site, slot }),
            final(self).position() == r@,
            final(self).memos() == old(self).memos(),
            final(self).cells() == old(self).cells(),
            final(self).revision() == old(self).revision(),
            final(self).running() == old(self).running(),
            final(self).invalidated() == old(self).invalidated(),
    {
        self.calls.enter(site, slot)
    }

    /// Leaves the innermost entered call.
    pub fn exit(&mut self)
        requires
            old(self).wf(),
        ensures
            final(self).wf(),
            old(self).position().len() > 0 ==> final(self).position() == old(self).position().drop_last(),
            old(self).position().len() == 0 ==> final(self).position() == old(self).position(),
            final(self).memos() == old(self).memos(),
            final(self).cells() == old(self).cells(),
            final(self).revision() == old(self).revision(),
            final(self).running() == old(self).running(),
            final(self).invalidated() == old(self).invalidated(),
    {
        let _ = self.calls.exit();
    }

    /// Memoizes at the current position: keeps the stored value when
    /// `fingerprint` equals the stored one, and otherwise stores what `init`
    /// returns; the position is marked live.
    pub fn memo<F: FnOnce(u64) -> V>(&mut self, fingerprint: u64, init: F) -> (r: MemoOutcome<V>)
        requires
            old(self).wf(),
            init.requires((fingerprint,)),
        ensures
            final(self).wf(),
            final(self).memos() == memo_step(
                old(self).memos(),
                old(self).position(),
                fingerprint,
                final(self).memos()[old(self).position()].value,
            ),
            crate::memo::reuses(old(self).memos(), old(self).position(), fingerprint) ==> r is Reused,
            !old(self).memos().contains_key(old(self).position()) ==> r is Created,
            old(self).memos().contains_key(old(self).position()) && !crate::memo::reuses(
                old(self).memos(),
                old(self).position(),
                fingerprint,
            ) ==> r == MemoOutcome::Replaced(old(self).memos()[old(self).position()].value),
            !crate::memo::reuses(old(self).memos(), old(self).position(), fingerprint) ==> init.ensures(
                (fingerprint,),
                final(self).memos()[old(self).position()].value,
            ),
            final(self).position() == old(self).position(),
            final(self).cells() == old(self).cells(),
            final(self).revision() == old(self).revision(),
            final(self).running() == old(self).running(),
            final(self).invalidated() == old(self).invalidated(),
    {
        let here = self.calls.current();
        self.memos.memo(&here, fingerprint, init)
    }

    /// As `memo`, with an initializer that may fail; on failure nothing stays
    /// memoized at the current position, and the value stored there before,
    /// if any, comes back with the error for disposal.
    pub fn try_memo<E, F: FnOnce(u64) -> Result<V, E>>(&mut self, fingerprint: u64, init: F) -> (r: Result<
        MemoOutcome<V>,
        InitFailure<V, E>,
    >)
        requires
            old(self).wf(),
            init.requires((fingerprint,)),
        ensures
            final(self).wf(),
            crate::memo::reuses(old(self).memos(), old(self).position(), fingerprint) ==> r is Ok && r->Ok_0 is Reused,
            r is Ok ==> final(self).memos() == memo_step(
                old(self).memos(),
                old(self).position(),
                fingerprint,
                final(self).memos()[old(self).position()].value,
            ),
            r is Ok && !crate::memo::reuses(old(self).memos(), old(self).position(), fingerprint) ==> init.ensures(
                (fingerprint,),
                Ok::<V, E>(final(self).memos()[old(self).position()].value),
            ),
            r is Ok && !old(self).memos().contains_key(old(self).position()) ==> r->Ok_0 is Created,
            r is Ok && old(self).memos().contains_key(old(self).position()) && !crate::memo::reuses(
                old(self).memos(),
                old(self).position(),
                fingerprint,
            ) ==> r->Ok_0 == MemoOutcome::Replaced(old(self).memos()[old(self).position()].value),
            r matches Err(failure) ==> {
                &&& init.ensures((fingerprint,), Err::<V, E>(failure.error))
                &&& final(self).memos() == old(self).memos().remove(old(self).position())
                &&& !old(self).memos().contains_key(old(self).position()) ==> failure.displaced is None
                &&& old(self).memos().contains_key(old(self).position()) ==> failure.displaced == Some(
                    old(self).memos()[old(self).position()].value,
                )
            },
            final(self).position() == old(self).position(),
            final(self).cells() == old(self).cells(),
            final(self).revision() == old(self).revision(),
            final(self).running() == old(self).running(),
            final(self).invalidated() == old(self).invalidated(),
    {
        let here = self.calls.current();
        self.memos.try_memo(&here, fingerprint, init)
    }

    /// Whether the current position was already memoized in this revision:
    /// a second visit means two calls share one address, which a slot
    /// should tell apart.
    pub fn visited_here(&self) -> (r: bool)
        requires
            self.wf(),
        ensures
            r == (self.memos().contains_key(self.position()) && self.memos()[self.position()].live),
    {
        let here = self.calls.current();
        self.memos.is_live(&here)
    }

    /// The memoized value at `address`, if any.
    pub fn memoized(&self, address: &CallAddress) -> (r: Option<&V>)
        requires
            self.wf(),
        ensures
            r is None <==> !self.memos().contains_key(address@),
            r matches Some(v) ==> *v == self.memos()[address@].value,
    {
        self.memos.get(address)
    }

    /// The state cell at the current position, created holding `initial` if
    /// there is none; its address is the handle to read and write it.
    pub fn state(&mut self, initial: T) -> (r: CallAddress)
        requires
            old(self).wf(),
        ensures
            final(self).wf(),
            r@ == old(self).position(),
            final(self).cells().dom() == old(self).cells().dom().insert(r@),
            final(self).cells()[r@].live,
            old(self).cells().contains_key(r@) ==> final(self).cells()[r@].value == old(self).cells()[r@].value,
            !old(self).cells().contains_key(r@) ==> final(self).cells()[r@].value == (CellState {
                committed: initial,
                pending: None,
            }),
            forall|k: Seq<Frame>| k != r@ && #[trigger] old(self).cells().contains_key(k)
                ==> final(self).cells()[k] == old(self).cells()[k],
            final(self).position() == old(self).position(),
            final(self).memos() == old(self).memos(),
            final(self).revision() == old(self).revision(),
            final(self).running() == old(self).running(),
            final(self).invalidated() == old(self).invalidated(),
    {
        let here = self.calls.current();
        let _ = self.cells.memo(
            &here,
            0,
            (|_f: u64| -> (c: CellState<T>)
                ensures
                    c.committed == initial,
                    c.pending is None,
                {
                    CellState::new(initial)
                }),
        );
        here
    }

    /// The value of the cell at `handle` as committed when the current
    /// revision started.
    pub fn read(&self, handle: &CallAddress) -> (r: Option<T>)
        requires
            self.wf(),
        ensures
            r is None <==> !self.cells().contains_key(handle@),
            r matches Some(v) ==> v == self.cells()[handle@].value.committed,
    {
        match self.cells.get(handle) {
            None => None,
            Some(c) => Some(c.read()),
        }
    }

    /// Writes `value` to the cell at `handle`: the write waits for the next
    /// revision, replacing any earlier pending write, and another revision is
    /// due. Returns whether the cell exists.
    pub fn write(&mut self, handle: &CallAddress, value: T) -> (r: bool)
        requires
            old(self).wf(),
        ensures
            final(self).wf(),
            r == old(self).cells().contains_key(handle@),
            !r ==> *final(self) == *old(self),
            r ==> final(self).cells() == old(self).cells().insert(
                handle@,
                crate::memo::Record {
                    value: CellState { committed: old(self).cells()[handle@].value.committed, pending: Some(value) },
                    ..old(self).cells()[handle@]
                },
            ),
            r ==> final(self).invalidated(),
            final(self).position() == old(self).position(),
            final(self).memos() == old(self).memos(),
            final(self).revision() == old(self).revision(),
            final(self).running() == old(self).running(),
    {
        let updated = match self.cells.get(handle) {
            None => {
                return false;
            },
            Some(c) => c.written(value),
        };
        let _ = self.cells.set_value(handle, updated);
        self.invalidated = true;
        true
    }

    /// Ends the running revision: removes every memoized value and cell whose
    /// call site was not visited, and hands them back.
    pub fn finish_revision(&mut self) -> (r: Result<RevisionEnd<V, T>, RunError>)
        requires
            old(self).wf(),
        ensures
            final(self).wf(),
            !old(self).running() ==> r is Err && r->Err_0 == RunError::NotRunning && *final(self) == *old(self),
            old(self).running() ==> r is Ok,
            r matches Ok(end) ==> !final(self).running() && final(self).revision() == old(self).revision()
                && end.revision == old(self).revision() && end.invalidated == old(self).invalidated()
                && final(self).invalidated() == old(self).invalidated()
                && final(self).position() == old(self).position(),
            r is Ok ==> final(self).memos() == swept(old(self).memos()) && final(self).cells() == swept(
                old(self).cells(),
            ),
            r matches Ok(end) ==> forall|j: int| 0 <= j < end.disposed@.len()
                ==> #[trigger] stale_keys(old(self).memos()).contains(end.disposed@[j].address@)
                && end.disposed@[j].record() == old(self).memos()[end.disposed@[j].address@],
            r matches Ok(end) ==> forall|a: int, b: int| 0 <= a < b < end.disposed@.len()
                ==> end.disposed@[a].address@ != end.disposed@[b].address@,
            r matches Ok(end) ==> forall|k: Seq<Frame>| #[trigger] stale_keys(old(self).memos()).contains(k)
                ==> exists|j: int| 0 <= j < end.disposed@.len() && end.disposed@[j].address@ == k,
            r matches Ok(end) ==> forall|j: int| 0 <= j < end.dropped_cells@.len()
                ==> #[trigger] stale_keys(old(self).cells()).contains(end.dropped_cells@[j].address@),
            r matches Ok(end) ==> forall|k: Seq<Frame>| #[trigger] stale_keys(old(self).cells()).contains(k)
                ==> exists|j: int| 0 <= j < end.dropped_cells@.len() && end.dropped_cells@[j].address@ == k,
    {
        if !self.running {
            return Err(RunError::NotRunning);
        }
        let ghost m0 = self.memos@;
        let ghost c0 = self.cells@;
        let disposed = self.memos.sweep();
        let dropped_cells = self.cells.sweep();
        self.running = false;
        let end = RevisionEnd { revision: self.revision, disposed, dropped_cells, invalidated: self.invalidated };
        proof {
            assert forall|k: Seq<Frame>| #[trigger] stale_keys(m0).contains(k) implies exists|j: int|
                0 <= j < end.disposed@.len() && end.disposed@[j].address@ == k by {
                let j = choose|j: int| 0 <= j < disposed@.len() && disposed@[j].address@ == k;
                assert(end.disposed@[j].address@ == k);
            }
            assert forall|k: Seq<Frame>| #[trigger] stale_keys(c0).contains(k) implies exists|j: int|
                0 <= j < end.dropped_cells@.len() && end.dropped_cells@[j].address@ == k by {
                let j = choose|j: int| 0 <= j < dropped_cells@.len() && dropped_cells@[j].address@ == k;
                assert(end.dropped_cells@[j].address@ == k);
            }
        }
        Ok(end)
    }
}

} // verus!
