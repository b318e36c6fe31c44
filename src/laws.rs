//! What holds of the store across visits and revisions.
use vstd::prelude::*;
use crate::address::Frame;
use crate::memo::{committed_all, memo_step, reuses, stale_keys, swept, unmarked, StoreMap};
use crate::state::{committed_after, CellState};

verus! {

/// One visit of `memo`: the address, the fingerprint, and what the
/// initializer returns should it run.
pub struct Visit<V> {
    pub address: Seq<Frame>,
    pub fingerprint: u64,
    pub fresh: V,
}

/// The store after the visits `vs`, in order.
pub open spec fn visit_all<V>(m: StoreMap<V>, vs: Seq<Visit<V>>) -> StoreMap<V>
    decreases vs.len(),
{
    if vs.len() == 0 {
        m
    } else {
        let v = vs.last();
        memo_step(visit_all(m, vs.drop_last()), v.address, v.fingerprint, v.fresh)
    }
}

/// The store after a whole revision that makes the visits `vs`.
pub open spec fn revision_step<V>(m: StoreMap<V>, vs: Seq<Visit<V>>) -> StoreMap<V> {
    swept(visit_all(unmarked(m), vs))
}

/// The store after the revisions `rs`, in order.
pub open spec fn run_revisions<V>(m: StoreMap<V>, rs: Seq<Seq<Visit<V>>>) -> StoreMap<V>
    decreases rs.len(),
{
    if rs.len() == 0 {
        m
    } else {
        revision_step(run_revisions(m, rs.drop_last()), rs.last())
    }
}

/// Whether `vs` visits `a`.
pub open spec fn visits<V>(vs: Seq<Visit<V>>, a: Seq<Frame>) -> bool {
    exists|i: int| 0 <= i < vs.len() && vs[i].address == a
}

/// Visits that never reach `a` leave what is stored at `a` alone.
pub proof fn lemma_unvisited_untouched<V>(m: StoreMap<V>, vs: Seq<Visit<V>>, a: Seq<Frame>)
    requires
        !visits(vs, a),
    ensures
        visit_all(m, vs).contains_key(a) == m.contains_key(a),
        m.contains_key(a) ==> visit_all(m, vs)[a] == m[a],
    decreases vs.len(),
{
    if vs.len() > 0 {
        assert(!visits(vs.drop_last(), a)) by {
            if visits(vs.drop_last(), a) {
                let i = choose|i: int| 0 <= i < vs.drop_last().len() && vs.drop_last()[i].address == a;
                assert(vs[i].address == a);
            }
        }
        assert(vs.last().address != a) by {
            if vs.last().address == a {
                assert(vs[vs.len() - 1].address == a);
            }
        }
        lemma_unvisited_untouched(m, vs.drop_last(), a);
    }
}

/// Visits at `a` that all bring the stored fingerprint keep the stored value,
/// and mark `a` live once any of them is made.
pub proof fn lemma_same_fingerprint_kept<V>(m: StoreMap<V>, vs: Seq<Visit<V>>, a: Seq<Frame>)
    requires
        m.contains_key(a),
        forall|i: int| 0 <= i < vs.len() && #[trigger] vs[i].address == a ==> vs[i].fingerprint == m[a].fingerprint,
    ensures
        visit_all(m, vs).contains_key(a),
        visit_all(m, vs)[a].fingerprint == m[a].fingerprint,
        visit_all(m, vs)[a].value == m[a].value,
        visits(vs, a) ==> visit_all(m, vs)[a].live,
        !visits(vs, a) ==> visit_all(m, vs)[a].live == m[a].live,
    decreases vs.len(),
{
    if vs.len() > 0 {
        let p = vs.drop_last();
        assert forall|i: int| 0 <= i < p.len() && #[trigger] p[i].address == a implies p[i].fingerprint
            == m[a].fingerprint by {
            assert(vs[i] == p[i]);
        }
        lemma_same_fingerprint_kept(m, p, a);
        let l = vs.last();
        if l.address == a {
            assert(vs[vs.len() - 1].address == a);
            assert(reuses(visit_all(m, p), a, l.fingerprint));
        }
        if visits(vs, a) && l.address != a {
            let i = choose|i: int| 0 <= i < vs.len() && vs[i].address == a;
            assert(i < vs.len() - 1);
            assert(p[i].address == a);
        }
        if !visits(vs, a) {
            assert(!visits(p, a)) by {
                if visits(p, a) {
                    let i = choose|i: int| 0 <= i < p.len() && p[i].address == a;
                    assert(vs[i].address == a);
                }
            }
            assert(l.address != a) by {
                if l.address == a {
                    assert(vs[vs.len() - 1].address == a);
                }
            }
        }
    }
}

/// Cache stability: over any run of revisions that each visit `a`, always
/// with the fingerprint stored there, the stored value stays the same one,
/// so the initializer never runs again.
pub proof fn lemma_cache_stability<V>(m: StoreMap<V>, rs: Seq<Seq<Visit<V>>>, a: Seq<Frame>)
    requires
        m.contains_key(a),
        forall|r: int| 0 <= r < rs.len() ==> visits(#[trigger] rs[r], a),
        forall|r: int, i: int|
            0 <= r < rs.len() && 0 <= i < rs[r].len() && (#[trigger] rs[r][i]).address == a
                ==> rs[r][i].fingerprint == m[a].fingerprint,
    ensures
        run_revisions(m, rs).contains_key(a),
        run_revisions(m, rs)[a].fingerprint == m[a].fingerprint,
        run_revisions(m, rs)[a].value == m[a].value,
    decreases rs.len(),
{
    if rs.len() > 0 {
        let p = rs.drop_last();
        assert forall|r: int| 0 <= r < p.len() implies visits(#[trigger] p[r], a) by {
            assert(p[r] == rs[r]);
        }
        assert forall|r: int, i: int|
            0 <= r < p.len() && 0 <= i < p[r].len() && (#[trigger] p[r][i]).address == a
                implies p[r][i].fingerprint == m[a].fingerprint by {
            assert(p[r] == rs[r]);
        }
        lemma_cache_stability(m, p, a);
        let m1 = run_revisions(m, p);
        let vs = rs.last();
        assert(visits(rs[rs.len() - 1], a));
        assert forall|i: int| 0 <= i < vs.len() && #[trigger] vs[i].address == a implies vs[i].fingerprint
            == unmarked(m1)[a].fingerprint by {
            assert(rs[rs.len() - 1][i] == vs[i]);
        }
        lemma_same_fingerprint_kept(unmarked(m1), vs, a);
    }
}

/// Cache invalidation: a visit with another fingerprint than the stored one
/// stores what the initializer returned for the new fingerprint.
pub proof fn lemma_cache_invalidation<V>(m: StoreMap<V>, a: Seq<Frame>, fingerprint: u64, fresh: V)
    requires
        m.contains_key(a),
        m[a].fingerprint != fingerprint,
    ensures
        !reuses(m, a, fingerprint),
        memo_step(m, a, fingerprint, fresh)[a].value == fresh,
        memo_step(m, a, fingerprint, fresh)[a].fingerprint == fingerprint,
        memo_step(m, a, fingerprint, fresh)[a].live,
{
}

/// Collection: an entry that a revision does not visit is among those its
/// sweep disposes of, and is gone from the store afterwards.
pub proof fn lemma_gc_completeness<V>(m: StoreMap<V>, vs: Seq<Visit<V>>, a: Seq<Frame>)
    requires
        m.contains_key(a),
        !visits(vs, a),
    ensures
        stale_keys(visit_all(unmarked(m), vs)).contains(a),
        visit_all(unmarked(m), vs)[a].value == m[a].value,
        !revision_step(m, vs).contains_key(a),
{
    lemma_unvisited_untouched(unmarked(m), vs, a);
}

/// An entry is disposed of at most once: once swept it is gone, and the next
/// revision's sweep cannot dispose of that address again, because an entry
/// made there anew is marked live by the visit that makes it.
pub proof fn lemma_no_double_dispose<V>(m: StoreMap<V>, vs: Seq<Visit<V>>, a: Seq<Frame>)
    requires
        stale_keys(m).contains(a),
    ensures
        !swept(m).contains_key(a),
        !stale_keys(visit_all(unmarked(swept(m)), vs)).contains(a),
{
    let m1 = unmarked(swept(m));
    assert(!m1.contains_key(a));
    if visits(vs, a) {
        lemma_fresh_entry_live(m1, vs, a);
    } else {
        lemma_unvisited_untouched(m1, vs, a);
    }
}

/// An address absent from the store is, after visits, either still absent or
/// marked live.
pub proof fn lemma_fresh_entry_live<V>(m: StoreMap<V>, vs: Seq<Visit<V>>, a: Seq<Frame>)
    requires
        !m.contains_key(a),
    ensures
        visit_all(m, vs).contains_key(a) ==> visit_all(m, vs)[a].live,
    decreases vs.len(),
{
    if vs.len() > 0 {
        lemma_fresh_entry_live(m, vs.drop_last(), a);
    }
}

/// A cell after the writes `ws`, in order.
pub open spec fn write_all<T>(c: CellState<T>, ws: Seq<T>) -> CellState<T>
    decreases ws.len(),
{
    if ws.len() == 0 {
        c
    } else {
        CellState { committed: write_all(c, ws.drop_last()).committed, pending: Some(ws.last()) }
    }
}

/// Write visibility: writes leave what reads see until the next commit, and
/// after it reads see the last write.
pub proof fn lemma_write_visibility<T>(c: CellState<T>, ws: Seq<T>)
    ensures
        write_all(c, ws).committed == c.committed,
        ws.len() > 0 ==> committed_after(write_all(c, ws)) == ws.last(),
        ws.len() == 0 ==> committed_after(write_all(c, ws)) == committed_after(c),
    decreases ws.len(),
{
    if ws.len() > 0 {
        lemma_write_visibility(c, ws.drop_last());
    }
}

/// At the start of a revision every cell's committed value becomes its last
/// pending write, or stays what it was when none is pending.
pub proof fn lemma_commit_at_revision_start<T>(m: StoreMap<CellState<T>>, a: Seq<Frame>)
    requires
        m.contains_key(a),
    ensures
        unmarked(committed_all(m)).contains_key(a),
        unmarked(committed_all(m))[a].value.committed == committed_after(m[a].value),
        unmarked(committed_all(m))[a].value.pending is None,
{
}

} // verus!
