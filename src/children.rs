//! Keeping a parent's children in the order declared during a revision: each
//! declared child is attached at the cursor, and what trails the last
//! declared child is removed at the end. Nodes are named by identifiers; the
//! caller performs the matching operation on the real nodes.
use vstd::prelude::*;

verus! {

/// What attaching a child did at the cursor.
#[derive(PartialEq, Eq, Structural, Clone, Copy, Debug)]
pub enum Attach {
    /// The child already stood at the cursor.
    Kept,
    /// The child took the place of this node.
    Replaced(u64),
    /// There was no node at the cursor: the child was appended.
    Appended,
}

/// A parent's children and how many of them were declared so far.
pub struct ChildList {
    nodes: Vec<u64>,
    cursor: usize,
}

/// `s` with the occurrences of `x` after position `from` removed.
pub open spec fn without_after(s: Seq<u64>, from: int, x: u64) -> Seq<u64> {
    s.subrange(0, from).add(s.subrange(from, s.len() as int).filter(other_than(x)))
}

/// Whether a node is not `x`.
pub open spec fn other_than(x: u64) -> spec_fn(u64) -> bool {
    |y: u64| y != x
}

impl ChildList {
    /// The children, in order.
    pub closed spec fn nodes(&self) -> Seq<u64> {
        self.nodes@
    }

    /// How many leading children were declared in this pass.
    pub closed spec fn cursor(&self) -> nat {
        self.cursor as nat
    }

    pub closed spec fn wf(&self) -> bool {
        self.cursor <= self.nodes@.len()
    }

    /// A parent with the children `nodes`, none declared yet.
    pub fn new(nodes: Vec<u64>) -> (r: ChildList)
        ensures
            r.wf(),
            r.nodes() == nodes@,
            r.cursor() == 0,
    {
        ChildList { nodes, cursor: 0 }
    }

    /// The children, in order.
    pub fn children(&self) -> (r: &Vec<u64>)
        ensures
            r@ == self.nodes(),
    {
        &self.nodes
    }

    /// Declares `child` as the next child: it is kept where it already
    /// stands at the cursor, takes the place of the node there otherwise
    /// (leaving any later place it held), or is appended.
    pub fn attach(&mut self, child: u64) -> (r: Attach)
        requires
            old(self).wf(),
            old(self).nodes().len() < usize::MAX,
        ensures
            final(self).wf(),
            final(self).cursor() == old(self).cursor() + 1,
            final(self).nodes().subrange(0, old(self).cursor() as int) == old(self).nodes().subrange(
                0,
                old(self).cursor() as int,
            ),
            final(self).nodes()[old(self).cursor() as int] == child,
            old(self).cursor() == old(self).nodes().len() ==> r == Attach::Appended
                && final(self).nodes() == old(self).nodes().push(child),
            old(self).cursor() < old(self).nodes().len() && old(self).nodes()[old(self).cursor() as int]
                == child ==> r == Attach::Kept && final(self).nodes() == old(self).nodes(),
            old(self).cursor() < old(self).nodes().len() && old(self).nodes()[old(self).cursor() as int]
                != child ==> r == Attach::Replaced(old(self).nodes()[old(self).cursor() as int])
                && final(self).nodes() == without_after(
                old(self).nodes().update(old(self).cursor() as int, child),
                (old(self).cursor() + 1) as int,
                child,
            ),
    {
        let at = self.cursor;
        if at == self.nodes.len() {
            self.nodes.push(child);
            self.cursor = at + 1;
            return Attach::Appended;
        }
        let existing = self.nodes[at];
        if existing == child {
            self.cursor = at + 1;
            return Attach::Kept;
        }
        let ghost s0 = self.nodes@.update(at as int, child);
        let ghost pred = other_than(child);
        let mut rest: Vec<u64> = Vec::new();
        let mut i: usize = at + 1;
        while i < self.nodes.len()
            invariant
                at < i <= self.nodes@.len(),
                self.nodes@.len() == s0.len(),
                pred == other_than(child),
                rest@ == s0.subrange(at + 1, i as int).filter(pred),
                forall|k: int| 0 <= k < s0.len() && k != at ==> self.nodes@[k] == s0[k],
            decreases self.nodes@.len() - i,
        {
            let y = self.nodes[i];
            proof {
                let a = s0.subrange(at + 1, i as int);
                let b = s0.subrange(at + 1, i + 1);
                assert(b.drop_last() =~= a);
                assert(b.last() == y);
                reveal(Seq::filter);
                assert(pred(y) == (y != child));
                assert(b.filter(pred) == if pred(y) { a.filter(pred).push(y) } else { a.filter(pred) });
            }
            if y != child {
                rest.push(y);
            }
            i = i + 1;
        }
        let mut kept: Vec<u64> = Vec::new();
        let mut j: usize = 0;
        while j < at
            invariant
                j <= at < self.nodes@.len(),
                kept@ == self.nodes@.subrange(0, j as int),
            decreases at - j,
        {
            kept.push(self.nodes[j]);
            j = j + 1;
            assert(kept@ =~= self.nodes@.subrange(0, j as int));
        }
        kept.push(child);
        let ghost front = kept@;
        kept.append(&mut rest);
        self.nodes = kept;
        self.cursor = at + 1;
        proof {
            assert(front =~= s0.subrange(0, at + 1));
            assert(self.nodes@ =~= without_after(s0, at + 1, child));
        }
        Attach::Replaced(existing)
    }

    /// One whole pass: declares `desired` in order, then trims. Whatever the
    /// children were, they end up exactly `desired`.
    pub fn reconcile(&mut self, desired: &Vec<u64>) -> (r: Vec<u64>)
        requires
            old(self).wf(),
            old(self).cursor() == 0,
            old(self).nodes().len() + desired@.len() < usize::MAX,
        ensures
            final(self).wf(),
            final(self).nodes() == desired@,
            final(self).cursor() == 0,
    {
        let mut k: usize = 0;
        while k < desired.len()
            invariant
                self.wf(),
                k <= desired@.len(),
                self.cursor() == k,
                self.nodes().len() <= old(self).nodes().len() + k,
                old(self).nodes().len() + desired@.len() < usize::MAX,
                self.nodes().subrange(0, k as int) == desired@.subrange(0, k as int),
            decreases desired@.len() - k,
        {
            let ghost before = self.nodes();
            let _ = self.attach(desired[k]);
            proof {
                assert(self.nodes().subrange(0, k + 1) =~= self.nodes().subrange(0, k as int).push(desired@[k as int]));
                assert(desired@.subrange(0, k + 1) =~= desired@.subrange(0, k as int).push(desired@[k as int]));
                let n = self.nodes();
                let w = without_after(before.update(k as int, desired@[k as int]), k + 1, desired@[k as int]);
                if k < before.len() && before[k as int] != desired@[k as int] {
                    assert(n == w);
                    before.update(k as int, desired@[k as int]).subrange(k + 1, before.len() as int).filter_lemma(
                        other_than(desired@[k as int]),
                    );
                }
            }
            k = k + 1;
        }
        proof { assert(desired@.subrange(0, k as int) =~= desired@); }
        self.trim()
    }

    /// Ends the pass: removes every child after the declared ones and hands
    /// them back in order; the next pass starts at the first child.
    pub fn trim(&mut self) -> (r: Vec<u64>)
        requires
            old(self).wf(),
        ensures
            final(self).wf(),
            final(self).nodes() == old(self).nodes().subrange(0, old(self).cursor() as int),
            r@ == old(self).nodes().subrange(old(self).cursor() as int, old(self).nodes().len() as int),
            final(self).cursor() == 0,
    {
        let mut removed: Vec<u64> = Vec::new();
        let mut i: usize = self.cursor;
        while i < self.nodes.len()
            invariant
                self.cursor <= i <= self.nodes@.len(),
                removed@ == self.nodes@.subrange(self.cursor as int, i as int),
            decreases self.nodes@.len() - i,
        {
            removed.push(self.nodes[i]);
            i = i + 1;
            assert(removed@ =~= self.nodes@.subrange(self.cursor as int, i as int));
        }
        self.nodes.truncate(self.cursor);
        self.cursor = 0;
        proof { assert(self.nodes@ =~= self.nodes@.subrange(0, self.nodes@.len() as int)); }
        removed
    }
}

} // verus!
