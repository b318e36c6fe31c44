//! The environment: values provided by enclosing calls and looked up by their
//! kind from nested ones, scoped to the call that provided them.
use vstd::prelude::*;

verus! {

/// A value provided under a kind.
#[derive(Clone, Copy, Debug)]
pub struct Binding<E> {
    pub kind: u64,
    pub value: E,
}

/// Why a lookup in the environment failed.
#[derive(PartialEq, Eq, Structural, Clone, Copy, Debug)]
pub enum EnvironmentError {
    /// No enclosing call provided a value of the kind asked for.
    Missing,
}

/// The value of the innermost binding of `kind` in `bs`.
pub open spec fn innermost<E>(bs: Seq<Binding<E>>, kind: u64) -> Option<E>
    decreases bs.len(),
{
    if bs.len() == 0 {
        None
    } else if bs.last().kind == kind {
        Some(bs.last().value)
    } else {
        innermost(bs.drop_last(), kind)
    }
}

/// The stack of environment frames.
pub struct Environment<E> {
    bindings: Vec<Binding<E>>,
    starts: Vec<usize>,
}

impl<E: Copy> Environment<E> {
    /// Every binding, outermost first.
    pub closed spec fn bindings(&self) -> Seq<Binding<E>> {
        self.bindings@
    }

    /// Where each open frame starts in the bindings, outermost first.
    pub closed spec fn frame_starts(&self) -> Seq<usize> {
        self.starts@
    }

    /// The frame starts are in order and within the bindings.
    pub closed spec fn wf(&self) -> bool {
        &&& forall|i: int, j: int|
            0 <= i <= j < self.starts@.len() ==> self.starts@[i] <= self.starts@[j]
        &&& forall|i: int| 0 <= i < self.starts@.len() ==> self.starts@[i] <= self.bindings@.len()
    }

    /// An environment with no frame and no binding.
    pub fn new() -> (r: Environment<E>)
        ensures
            r.wf(),
            r.bindings() == Seq::<Binding<E>>::empty(),
            r.frame_starts() == Seq::<usize>::empty(),
    {
        Environment { bindings: Vec::new(), starts: Vec::new() }
    }

    /// Opens a frame for a nested call.
    pub fn push_frame(&mut self)
        requires
            old(self).wf(),
        ensures
            final(self).wf(),
            final(self).bindings() == old(self).bindings(),
            final(self).frame_starts() == old(self).frame_starts().push(
                old(self).bindings().len() as usize,
            ),
    {
        let n = self.bindings.len();
        self.starts.push(n);
    }

    /// Closes the innermost frame, releasing what it provided; without an
    /// open frame nothing changes.
    pub fn pop_frame(&mut self)
        requires
            old(self).wf(),
        ensures
            final(self).wf(),
            old(self).frame_starts().len() == 0 ==> final(self).bindings() == old(self).bindings()
                && final(self).frame_starts() == old(self).frame_starts(),
            old(self).frame_starts().len() > 0 ==> final(self).frame_starts()
                == old(self).frame_starts().drop_last() && final(self).bindings()
                == old(self).bindings().subrange(0, old(self).frame_starts().last() as int),
    {
        match self.starts.pop() {
            None => {},
            Some(start) => {
                self.bindings.truncate(start);
            },
        }
    }

    /// Provides `value` under `kind` for the rest of the innermost frame,
    /// shadowing any outer value of that kind.
    pub fn provide(&mut self, kind: u64, value: E)
        requires
            old(self).wf(),
        ensures
            final(self).wf(),
            final(self).frame_starts() == old(self).frame_starts(),
            final(self).bindings() == old(self).bindings().push(Binding { kind, value }),
    {
        self.bindings.push(Binding { kind, value });
    }

    /// The innermost value provided under `kind`.
    pub fn expect(&self, kind: u64) -> (r: Result<E, EnvironmentError>)
        ensures
            r == (match innermost(self.bindings(), kind) {
                Some(v) => Ok(v),
                None => Err(EnvironmentError::Missing),
            }),
    {
        let mut i: usize = self.bindings.len();
        proof { assert(self.bindings@.subrange(0, i as int) =~= self.bindings@); }
        while i > 0
            invariant
                i <= self.bindings@.len(),
                innermost(self.bindings@, kind) == innermost(self.bindings@.subrange(0, i as int), kind),
            decreases i,
        {
            let b = self.bindings[i - 1];
            proof {
                let s = self.bindings@.subrange(0, i as int);
                assert(s.drop_last() =~= self.bindings@.subrange(0, i - 1));
            }
            if b.kind == kind {
                return Ok(b.value);
            }
            i = i - 1;
        }
        Err(EnvironmentError::Missing)
    }
}

/// A value provided in a frame is seen by lookups until that frame closes and
/// no further, and a nested provision of the same kind shadows it.
pub proof fn lemma_frame_scoping<E>(bs: Seq<Binding<E>>, kind: u64, value: E, other: u64, inner: E)
    ensures
        innermost(bs.push(Binding { kind, value }), kind) == Some(value),
        innermost(bs.push(Binding { kind, value }).push(Binding { kind, value: inner }), kind)
            == Some(inner),
        other != kind ==> innermost(bs.push(Binding { kind: other, value: inner }), kind)
            == innermost(bs, kind),
        bs.push(Binding { kind, value }).subrange(0, bs.len() as int) == bs,
{
    assert(bs.push(Binding { kind, value }).drop_last() =~= bs);
    assert(bs.push(Binding { kind: other, value: inner }).drop_last() =~= bs);
    assert(bs.push(Binding { kind, value }).subrange(0, bs.len() as int) =~= bs);
}

} // verus!
