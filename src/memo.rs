//! The memoization store: values kept per call address together with the
//! fingerprint that produced them, marked when visited during a revision and
//! swept when a revision ends without visiting them.
use vstd::prelude::*;
use crate::address::{CallAddress, Frame};
use crate::state::{committed_after, CellState};

verus! {

/// What the store holds for one address, as contracts see it.
pub struct Record<V> {
    pub fingerprint: u64,
    pub value: V,
    pub live: bool,
}

/// The contents of a store: one record per address.
pub type StoreMap<V> = Map<Seq<Frame>, Record<V>>;

/// One stored entry.
pub struct MemoEntry<V> {
    pub address: CallAddress,
    pub fingerprint: u64,
    pub value: V,
    pub live: bool,
}

impl<V> MemoEntry<V> {
    pub open spec fn record(&self) -> Record<V> {
        Record { fingerprint: self.fingerprint, value: self.value, live: self.live }
    }
}

/// What a call of `memo` did at its address.
pub enum MemoOutcome<V> {
    /// The stored value had the same fingerprint and was kept.
    Reused,
    /// Nothing was stored at the address: the initializer ran.
    Created,
    /// The stored value had another fingerprint: it is handed back for
    /// disposal, and the initializer ran.
    Replaced(V),
}

/// A failed initializer: its error, and the value that was stored at the
/// address before, now removed and handed back for disposal.
pub struct InitFailure<V, E> {
    pub error: E,
    pub displaced: Option<V>,
}

/// The kind of step `memo` takes on `m` at `a` with `fingerprint`.
pub open spec fn reuses<V>(m: StoreMap<V>, a: Seq<Frame>, fingerprint: u64) -> bool {
    m.contains_key(a) && m[a].fingerprint == fingerprint
}

/// The store after `memo` at `a` with `fingerprint`, where `fresh` is what the
/// initializer returned if it ran.
pub open spec fn memo_step<V>(m: StoreMap<V>, a: Seq<Frame>, fingerprint: u64, fresh: V) -> StoreMap<V> {
    m.insert(
        a,
        Record {
            fingerprint,
            value: if reuses(m, a, fingerprint) { m[a].value } else { fresh },
            live: true,
        },
    )
}

/// The store at the start of a revision: every mark cleared.
pub open spec fn unmarked<V>(m: StoreMap<V>) -> StoreMap<V> {
    Map::new(
        |k: Seq<Frame>| m.contains_key(k),
        |k: Seq<Frame>| Record { fingerprint: m[k].fingerprint, value: m[k].value, live: false },
    )
}

/// The addresses that a sweep of `m` disposes of: those not marked.
pub open spec fn stale_keys<V>(m: StoreMap<V>) -> Set<Seq<Frame>> {
    Set::new(|k: Seq<Frame>| m.contains_key(k) && !m[k].live)
}

/// The store after a sweep: the marked entries alone.
pub open spec fn swept<V>(m: StoreMap<V>) -> StoreMap<V> {
    m.restrict(Set::new(|k: Seq<Frame>| m.contains_key(k) && m[k].live))
}

/// `s` has distinct addresses and `m` holds exactly the records of `s`.
pub closed spec fn entries_match<V>(s: Seq<MemoEntry<V>>, m: StoreMap<V>) -> bool {
    &&& forall|i: int, j: int| 0 <= i < j < s.len() ==> s[i].address@ != s[j].address@
    &&& forall|i: int|
        0 <= i < s.len() ==> #[trigger] m.contains_key(s[i].address@) && m[s[i].address@] == s[i].record()
    &&& forall|k: Seq<Frame>|
        #[trigger] m.contains_key(k) ==> exists|i: int| 0 <= i < s.len() && s[i].address@ == k
}

proof fn lemma_push<V>(s: Seq<MemoEntry<V>>, m: StoreMap<V>, e: MemoEntry<V>)
    requires
        entries_match(s, m),
        !m.contains_key(e.address@),
    ensures
        entries_match(s.push(e), m.insert(e.address@, e.record())),
{
    let t = s.push(e);
    let n = m.insert(e.address@, e.record());
    assert forall|i: int, j: int| 0 <= i < j < t.len() implies t[i].address@ != t[j].address@ by {
        if j == s.len() {
            assert(m.contains_key(s[i].address@));
        }
    }
    assert forall|k: Seq<Frame>| #[trigger] n.contains_key(k) implies exists|i: int|
        0 <= i < t.len() && t[i].address@ == k by {
        if k == e.address@ {
            assert(t[s.len() as int].address@ == k);
        } else {
            assert(m.contains_key(k));
            let i = choose|i: int| 0 <= i < s.len() && s[i].address@ == k;
            assert(t[i].address@ == k);
        }
    }
}

proof fn lemma_update<V>(s: Seq<MemoEntry<V>>, m: StoreMap<V>, i: int, e: MemoEntry<V>)
    requires
        entries_match(s, m),
        0 <= i < s.len(),
        e.address@ == s[i].address@,
    ensures
        entries_match(s.update(i, e), m.insert(e.address@, e.record())),
{
    let t = s.update(i, e);
    let n = m.insert(e.address@, e.record());
    assert forall|j: int| 0 <= j < t.len() implies #[trigger] n.contains_key(t[j].address@)
        && n[t[j].address@] == t[j].record() by {
        if j != i {
            assert(s[j].address@ != s[i].address@);
            assert(m.contains_key(s[j].address@));
        }
    }
    assert forall|k: Seq<Frame>| #[trigger] n.contains_key(k) implies exists|j: int|
        0 <= j < t.len() && t[j].address@ == k by {
        if k == e.address@ {
            assert(t[i].address@ == k);
        } else {
            assert(m.contains_key(k));
            let j = choose|j: int| 0 <= j < s.len() && s[j].address@ == k;
            assert(t[j].address@ == k);
        }
    }
}

proof fn lemma_remove<V>(s: Seq<MemoEntry<V>>, m: StoreMap<V>, i: int)
    requires
        entries_match(s, m),
        0 <= i < s.len(),
    ensures
        entries_match(s.remove(i), m.remove(s[i].address@)),
{
    let t = s.remove(i);
    let n = m.remove(s[i].address@);
    assert forall|a: int, b: int| 0 <= a < b < t.len() implies t[a].address@ != t[b].address@ by {
        let a0 = if a < i { a } else { a + 1 };
        let b0 = if b < i { b } else { b + 1 };
        assert(t[a] == s[a0] && t[b] == s[b0]);
    }
    assert forall|j: int| 0 <= j < t.len() implies #[trigger] n.contains_key(t[j].address@)
        && n[t[j].address@] == t[j].record() by {
        let j0 = if j < i { j } else { j + 1 };
        assert(t[j] == s[j0]);
        assert(m.contains_key(s[j0].address@));
        assert(s[j0].address@ != s[i].address@);
    }
    assert forall|k: Seq<Frame>| #[trigger] n.contains_key(k) implies exists|j: int|
        0 <= j < t.len() && t[j].address@ == k by {
        assert(m.contains_key(k));
        let j0 = choose|j: int| 0 <= j < s.len() && s[j].address@ == k;
        if j0 < i {
            assert(t[j0].address@ == k);
        } else {
            assert(j0 != i);
            assert(t[j0 - 1].address@ == k);
        }
    }
}

/// The memoization store.
pub struct MemoStore<V> {
    entries: Vec<MemoEntry<V>>,
    contents: Ghost<StoreMap<V>>,
}

impl<V> View for MemoStore<V> {
    type V = StoreMap<V>;

    closed spec fn view(&self) -> StoreMap<V> {
        self.contents@
    }
}

impl<V> MemoStore<V> {
    /// The entries have distinct addresses, and the contents are exactly the
    /// entries' records.
    pub closed spec fn wf(&self) -> bool {
        entries_match(self.entries@, self.contents@)
    }

    /// An empty store.
    pub fn new() -> (r: MemoStore<V>)
        ensures
            r.wf(),
            r@ == Map::<Seq<Frame>, Record<V>>::empty(),
    {
        MemoStore { entries: Vec::new(), contents: Ghost(Map::empty()) }
    }

    /// How many entries are stored.
    pub fn len(&self) -> (r: usize)
        requires
            self.wf(),
        ensures
            r == self@.len(),
    {
        proof { self.lemma_len(); }
        self.entries.len()
    }

    proof fn lemma_len(&self)
        requires
            self.wf(),
        ensures
            self@.dom().finite(),
            self@.len() == self.entries@.len(),
    {
        let addrs = Seq::new(self.entries@.len(), |i: int| self.entries@[i].address@);
        assert(addrs.no_duplicates());
        addrs.unique_seq_to_set();
        assert(addrs.to_set() =~= self@.dom()) by {
            assert forall|k: Seq<Frame>| addrs.to_set().contains(k) implies self@.dom().contains(k) by {
                let i = choose|i: int| 0 <= i < addrs.len() && addrs[i] == k;
                assert(self.contents@.contains_key(self.entries@[i].address@));
            }
            assert forall|k: Seq<Frame>| self@.dom().contains(k) implies addrs.to_set().contains(k) by {
                assert(self.contents@.contains_key(k));
                let i = choose|i: int| 0 <= i < self.entries@.len() && self.entries@[i].address@ == k;
                assert(addrs[i] == k);
            }
        }
    }

    /// The position of the entry at `address`, if there is one.
    fn find(&self, address: &CallAddress) -> (r: Option<usize>)
        requires
            self.wf(),
        ensures
            r is None ==> !self@.contains_key(address@),
            r matches Some(i) ==> i < self.entries@.len() && self.entries@[i as int].address@ == address@,
    {
        let mut i: usize = 0;
        while i < self.entries.len()
            invariant
                self.wf(),
                i <= self.entries@.len(),
                forall|j: int| 0 <= j < i ==> self.entries@[j].address@ != address@,
            decreases self.entries@.len() - i,
        {
            if self.entries[i].address.same_as(address) {
                return Some(i);
            }
            i = i + 1;
        }
        proof {
            if self@.contains_key(address@) {
                let j = choose|j: int| 0 <= j < self.entries@.len() && self.entries@[j].address@ == address@;
                assert(self.entries@[j].address@ != address@);
            }
        }
        None
    }
    /// The value stored at `address`, if any.
    pub fn get(&self, address: &CallAddress) -> (r: Option<&V>)
        requires
            self.wf(),
        ensures
            r is None <==> !self@.contains_key(address@),
            r matches Some(v) ==> *v == self@[address@].value,
    {
        match self.find(address) {
            None => None,
            Some(i) => {
                proof { assert(self.contents@.contains_key(self.entries@[i as int].address@)); }
                Some(&self.entries[i].value)
            },
        }
    }

    /// Whether `address` is stored and already marked live in this revision.
    pub fn is_live(&self, address: &CallAddress) -> (r: bool)
        requires
            self.wf(),
        ensures
            r == (self@.contains_key(address@) && self@[address@].live),
    {
        match self.find(address) {
            None => false,
            Some(i) => {
                proof { assert(self.contents@.contains_key(self.entries@[i as int].address@)); }
                self.entries[i].live
            },
        }
    }

    /// Visits `address` with `fingerprint`: keeps the stored value if its
    /// fingerprint is equal, and otherwise stores what `init` returns for the
    /// fingerprint; either way the address is marked live.
    pub fn memo<F: FnOnce(u64) -> V>(&mut self, address: &CallAddress, fingerprint: u64, init: F) -> (r:
        MemoOutcome<V>)
        requires
            old(self).wf(),
            init.requires((fingerprint,)),
        ensures
            final(self).wf(),
            final(self)@ == memo_step(old(self)@, address@, fingerprint, final(self)@[address@].value),
            reuses(old(self)@, address@, fingerprint) ==> r is Reused,
            !old(self)@.contains_key(address@) ==> r is Created,
            old(self)@.contains_key(address@) && !reuses(old(self)@, address@, fingerprint) ==> r
                == MemoOutcome::Replaced(old(self)@[address@].value),
            !reuses(old(self)@, address@, fingerprint) ==> init.ensures(
                (fingerprint,),
                final(self)@[address@].value,
            ),
    {
        match self.find(address) {
            None => {
                let value = init(fingerprint);
                let e = MemoEntry { address: address.duplicate(), fingerprint, value, live: true };
                proof { lemma_push(self.entries@, self.contents@, e); }
                self.contents = Ghost(self.contents@.insert(e.address@, e.record()));
                self.entries.push(e);
                MemoOutcome::Created
            },
            Some(i) => {
                let ghost s0 = self.entries@;
                proof { assert(self.contents@.contains_key(s0[i as int].address@)); }
                let e = self.entries.remove(i);
                if e.fingerprint == fingerprint {
                    let e2 = MemoEntry { live: true, ..e };
                    proof { lemma_update(s0, self.contents@, i as int, e2); }
                    self.contents = Ghost(self.contents@.insert(e2.address@, e2.record()));
                    self.entries.insert(i, e2);
                    proof { assert(self.entries@ =~= s0.update(i as int, e2)); }
                    MemoOutcome::Reused
                } else {
                    let MemoEntry { address: addr, fingerprint: _, value: old_value, live: _ } = e;
                    let value = init(fingerprint);
                    let e2 = MemoEntry { address: addr, fingerprint, value, live: true };
                    proof { lemma_update(s0, self.contents@, i as int, e2); }
                    self.contents = Ghost(self.contents@.insert(e2.address@, e2.record()));
                    self.entries.insert(i, e2);
                    proof { assert(self.entries@ =~= s0.update(i as int, e2)); }
                    MemoOutcome::Replaced(old_value)
                }
            },
        }
    }

    /// As `memo`, with an initializer that may fail. On failure nothing stays
    /// stored at `address`: a value stored there before is removed and handed
    /// back with the error.
    pub fn try_memo<E, F: FnOnce(u64) -> Result<V, E>>(&mut self, address: &CallAddress, fingerprint: u64, init: F) -> (r:
        Result<MemoOutcome<V>, InitFailure<V, E>>)
        requires
            old(self).wf(),
            init.requires((fingerprint,)),
        ensures
            final(self).wf(),
            reuses(old(self)@, address@, fingerprint) ==> r is Ok && r->Ok_0 is Reused,
            r is Ok ==> final(self)@ == memo_step(old(self)@, address@, fingerprint, final(self)@[address@].value),
            r is Ok && !reuses(old(self)@, address@, fingerprint) ==> init.ensures(
                (fingerprint,),
                Ok::<V, E>(final(self)@[address@].value),
            ),
            r is Ok && !old(self)@.contains_key(address@) ==> r->Ok_0 is Created,
            r is Ok && old(self)@.contains_key(address@) && !reuses(old(self)@, address@, fingerprint) ==> r->Ok_0
                == MemoOutcome::Replaced(old(self)@[address@].value),
            r matches Err(failure) ==> {
                &&& init.ensures((fingerprint,), Err::<V, E>(failure.error))
                &&& final(self)@ == old(self)@.remove(address@)
                &&& !old(self)@.contains_key(address@) ==> failure.displaced is None
                &&& old(self)@.contains_key(address@) ==> failure.displaced == Some(old(self)@[address@].value)
            },
    {
        match self.find(address) {
            None => {
                match init(fingerprint) {
                    Ok(value) => {
                        let e = MemoEntry { address: address.duplicate(), fingerprint, value, live: true };
                        proof { lemma_push(self.entries@, self.contents@, e); }
                        self.contents = Ghost(self.contents@.insert(e.address@, e.record()));
                        self.entries.push(e);
                        Ok(MemoOutcome::Created)
                    },
                    Err(error) => {
                        proof { assert(self.contents@.remove(address@) =~= self.contents@); }
                        Err(InitFailure { error, displaced: None })
                    },
                }
            },
            Some(i) => {
                let ghost s0 = self.entries@;
                let ghost m0 = self.contents@;
                proof {
                    assert(self.contents@.contains_key(s0[i as int].address@));
                    lemma_remove(s0, self.contents@, i as int);
                }
                let e = self.entries.remove(i);
                if e.fingerprint == fingerprint {
                    let e2 = MemoEntry { live: true, ..e };
                    proof { lemma_update(s0, m0, i as int, e2); }
                    self.contents = Ghost(m0.insert(e2.address@, e2.record()));
                    self.entries.insert(i, e2);
                    proof { assert(self.entries@ =~= s0.update(i as int, e2)); }
                    Ok(MemoOutcome::Reused)
                } else {
                    self.contents = Ghost(m0.remove(address@));
                    let MemoEntry { address: addr, fingerprint: _, value: old_value, live: _ } = e;
                    match init(fingerprint) {
                        Ok(value) => {
                            let e2 = MemoEntry { address: addr, fingerprint, value, live: true };
                            proof {
                                lemma_push(self.entries@, self.contents@, e2);
                                assert(self.contents@.insert(e2.address@, e2.record()) =~= m0.insert(e2.address@, e2.record()));
                            }
                            self.contents = Ghost(self.contents@.insert(e2.address@, e2.record()));
                            self.entries.push(e2);
                            Ok(MemoOutcome::Replaced(old_value))
                        },
                        Err(error) => Err(InitFailure { error, displaced: Some(old_value) }),
                    }
                }
            },
        }
    }

    /// Clears every mark, as a revision starts.
    pub fn unmark_all(&mut self)
        requires
            old(self).wf(),
        ensures
            final(self).wf(),
            final(self)@ == unmarked(old(self)@),
    {
        let ghost m0 = self.contents@;
        let mut i: usize = 0;
        while i < self.entries.len()
            invariant
                self.wf(),
                i <= self.entries@.len(),
                self.contents@.dom() == m0.dom(),
                forall|k: Seq<Frame>| #[trigger] self.contents@.contains_key(k) ==>
                    self.contents@[k].fingerprint == m0[k].fingerprint
                    && self.contents@[k].value == m0[k].value,
                forall|j: int| 0 <= j < i ==> !self.entries@[j].live,
            decreases self.entries@.len() - i,
        {
            let ghost s0 = self.entries@;
            proof { assert(self.contents@.contains_key(s0[i as int].address@)); }
            let e = self.entries.remove(i);
            let e2 = MemoEntry { live: false, ..e };
            proof { lemma_update(s0, self.contents@, i as int, e2); }
            self.contents = Ghost(self.contents@.insert(e2.address@, e2.record()));
            self.entries.insert(i, e2);
            proof { assert(self.entries@ =~= s0.update(i as int, e2)); }
            i = i + 1;
        }
        proof {
            assert forall|k: Seq<Frame>| #[trigger] self.contents@.contains_key(k) implies !self.contents@[k].live by {
                let j = choose|j: int| 0 <= j < self.entries@.len() && self.entries@[j].address@ == k;
                assert(self.contents@.contains_key(self.entries@[j].address@));
            }
            assert(self.contents@ =~= unmarked(m0));
        }
    }

    /// Removes every entry not marked live, handing them back for disposal.
    pub fn sweep(&mut self) -> (r: Vec<MemoEntry<V>>)
        requires
            old(self).wf(),
        ensures
            final(self).wf(),
            final(self)@ == swept(old(self)@),
            forall|j: int| 0 <= j < r@.len() ==> #[trigger] stale_keys(old(self)@).contains(r@[j].address@)
                && r@[j].record() == old(self)@[r@[j].address@],
            forall|a: int, b: int| 0 <= a < b < r@.len() ==> r@[a].address@ != r@[b].address@,
            forall|k: Seq<Frame>| #[trigger] stale_keys(old(self)@).contains(k) ==> exists|j: int|
                0 <= j < r@.len() && r@[j].address@ == k,
    {
        let ghost m0 = self.contents@;
        let mut out: Vec<MemoEntry<V>> = Vec::new();
        let mut i: usize = 0;
        while i < self.entries.len()
            invariant
                self.wf(),
                i <= self.entries@.len(),
                forall|j: int| 0 <= j < i ==> self.entries@[j].live,
                forall|k: Seq<Frame>| #[trigger] self.contents@.contains_key(k) ==> m0.contains_key(k)
                    && self.contents@[k] == m0[k],
                forall|k: Seq<Frame>| #[trigger] m0.contains_key(k) && m0[k].live ==> self.contents@.contains_key(k),
                forall|j: int| 0 <= j < out@.len() ==> #[trigger] stale_keys(m0).contains(out@[j].address@)
                    && out@[j].record() == m0[out@[j].address@]
                    && !self.contents@.contains_key(out@[j].address@),
                forall|a: int, b: int| 0 <= a < b < out@.len() ==> out@[a].address@ != out@[b].address@,
                forall|k: Seq<Frame>| #[trigger] m0.contains_key(k) && !self.contents@.contains_key(k) ==> exists|j: int|
                    0 <= j < out@.len() && out@[j].address@ == k,
            decreases self.entries@.len() - i,
        {
            if self.entries[i].live {
                i = i + 1;
            } else {
                let ghost s0 = self.entries@;
                let ghost k0 = s0[i as int].address@;
                let ghost c0 = self.contents@;
                proof {
                    assert(self.contents@.contains_key(k0));
                    lemma_remove(s0, self.contents@, i as int);
                }
                let e = self.entries.remove(i);
                self.contents = Ghost(self.contents@.remove(k0));
                let ghost o0 = out@;
                out.push(e);
                proof {
                    assert forall|a: int, b: int| 0 <= a < b < out@.len() implies out@[a].address@ != out@[b].address@ by {
                        if b == o0.len() {
                            assert(stale_keys(m0).contains(o0[a].address@));
                            assert(!c0.contains_key(o0[a].address@));
                            assert(c0.contains_key(k0));
                        }
                    }
                    assert forall|k: Seq<Frame>| #[trigger] m0.contains_key(k) && !self.contents@.contains_key(k) implies exists|j: int|
                        0 <= j < out@.len() && out@[j].address@ == k by {
                        if k == k0 {
                            assert(out@[o0.len() as int].address@ == k);
                        } else {
                            let j = choose|j: int| 0 <= j < o0.len() && o0[j].address@ == k;
                            assert(out@[j].address@ == k);
                        }
                    }
                }
            }
        }
        proof {
            assert forall|k: Seq<Frame>| #[trigger] self.contents@.contains_key(k) implies self.contents@[k].live by {
                let j = choose|j: int| 0 <= j < self.entries@.len() && self.entries@[j].address@ == k;
                assert(self.contents@.contains_key(self.entries@[j].address@));
            }
            assert(self.contents@ =~= swept(m0));
            assert forall|k: Seq<Frame>| #[trigger] stale_keys(m0).contains(k) implies exists|j: int|
                0 <= j < out@.len() && out@[j].address@ == k by {
                assert(m0.contains_key(k));
                if self.contents@.contains_key(k) {
                    assert(self.contents@[k].live);
                }
            }
        }
        out
    }
    /// Stores `value` at `address` in place of the value there, keeping its
    /// fingerprint and mark; hands back the value replaced.
    pub fn set_value(&mut self, address: &CallAddress, value: V) -> (r: Option<V>)
        requires
            old(self).wf(),
        ensures
            final(self).wf(),
            !old(self)@.contains_key(address@) ==> r is None && final(self)@ == old(self)@,
            old(self)@.contains_key(address@) ==> r == Some(old(self)@[address@].value) && final(self)@
                == old(self)@.insert(address@, Record { value, ..old(self)@[address@] }),
    {
        match self.find(address) {
            None => None,
            Some(i) => {
                let ghost s0 = self.entries@;
                proof { assert(self.contents@.contains_key(s0[i as int].address@)); }
                let MemoEntry { address: addr, fingerprint, value: old_value, live } = self.entries.remove(i);
                let e2 = MemoEntry { address: addr, fingerprint, value, live };
                proof { lemma_update(s0, self.contents@, i as int, e2); }
                self.contents = Ghost(self.contents@.insert(e2.address@, e2.record()));
                self.entries.insert(i, e2);
                proof { assert(self.entries@ =~= s0.update(i as int, e2)); }
                Some(old_value)
            },
        }
    }
}

/// The store after every pending write of its cells is committed.
pub open spec fn committed_all<T>(m: StoreMap<CellState<T>>) -> StoreMap<CellState<T>> {
    Map::new(
        |k: Seq<Frame>| m.contains_key(k),
        |k: Seq<Frame>|
            Record {
                value: CellState { committed: committed_after(m[k].value), pending: None },
                ..m[k]
            },
    )
}

impl<T: Copy> MemoStore<CellState<T>> {
    /// Commits the pending write of every cell.
    pub fn commit_all(&mut self)
        requires
            old(self).wf(),
        ensures
            final(self).wf(),
            final(self)@ == committed_all(old(self)@),
    {
        let ghost m0 = self.contents@;
        let mut i: usize = 0;
        while i < self.entries.len()
            invariant
                self.wf(),
                i <= self.entries@.len(),
                self.contents@.dom() == m0.dom(),
                forall|k: Seq<Frame>| #[trigger] self.contents@.contains_key(k) ==>
                    self.contents@[k].fingerprint == m0[k].fingerprint
                    && self.contents@[k].live == m0[k].live
                    && committed_after(self.contents@[k].value) == committed_after(m0[k].value),
                forall|j: int| 0 <= j < i ==> self.entries@[j].value.pending is None,
            decreases self.entries@.len() - i,
        {
            let ghost s0 = self.entries@;
            proof { assert(self.contents@.contains_key(s0[i as int].address@)); }
            let e = self.entries.remove(i);
            let committed = match e.value.pending {
                Some(v) => v,
                None => e.value.committed,
            };
            let e2 = MemoEntry { value: CellState { committed, pending: None }, ..e };
            proof { lemma_update(s0, self.contents@, i as int, e2); }
            self.contents = Ghost(self.contents@.insert(e2.address@, e2.record()));
            self.entries.insert(i, e2);
            proof { assert(self.entries@ =~= s0.update(i as int, e2)); }
            i = i + 1;
        }
        proof {
            assert forall|k: Seq<Frame>| #[trigger] self.contents@.contains_key(k) implies self.contents@[k].value.pending is None by {
                let j = choose|j: int| 0 <= j < self.entries@.len() && self.entries@[j].address@ == k;
                assert(self.contents@.contains_key(self.entries@[j].address@));
            }
            assert(self.contents@ =~= committed_all(m0));
        }
    }
}


} // verus!
