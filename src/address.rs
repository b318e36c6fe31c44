//! Call addresses: the identity of one call occurrence, made of the static
//! site of every enclosing call and the slot that tells repeated calls at one
//! site apart.
use vstd::prelude::*;

verus! {

/// One level of call nesting: a static call site and a slot discriminator.
#[derive(PartialEq, Eq, Structural, Clone, Copy, Debug)]
pub struct Frame {
    pub site: u64,
    pub slot: u64,
}

/// The identity of a call occurrence: the frames from the root down to the
/// call itself.
#[derive(Debug)]
pub struct CallAddress {
    pub frames: Vec<Frame>,
}

impl View for CallAddress {
    type V = Seq<Frame>;

    open spec fn view(&self) -> Seq<Frame> {
        self.frames@
    }
}

/// Copies a sequence of frames.
fn copy_frames(frames: &Vec<Frame>) -> (r: Vec<Frame>)
    ensures
        r@ == frames@,
{
    let mut r: Vec<Frame> = Vec::new();
    let mut i: usize = 0;
    while i < frames.len()
        invariant
            i <= frames@.len(),
            r@ == frames@.subrange(0, i as int),
        decreases frames@.len() - i,
    {
        r.push(frames[i]);
        i = i + 1;
        assert(r@ =~= frames@.subrange(0, i as int));
    }
    assert(r@ =~= frames@);
    r
}

impl CallAddress {
    /// The address of the root of the call tree.
    pub fn root() -> (r: CallAddress)
        ensures
            r@ == Seq::<Frame>::empty(),
    {
        CallAddress { frames: Vec::new() }
    }

    /// A copy of this address.
    pub fn duplicate(&self) -> (r: CallAddress)
        ensures
            r@ == self@,
    {
        CallAddress { frames: copy_frames(&self.frames) }
    }

    /// Whether two addresses name the same call occurrence.
    pub fn same_as(&self, other: &CallAddress) -> (r: bool)
        ensures
            r == (self@ == other@),
    {
        if self.frames.len() != other.frames.len() {
            return false;
        }
        let mut i: usize = 0;
        while i < self.frames.len()
            invariant
                self@.len() == other@.len(),
                i <= self@.len(),
                forall|k: int| 0 <= k < i ==> self@[k] == other@[k],
            decreases self@.len() - i,
        {
            if self.frames[i] != other.frames[i] {
                return false;
            }
            i = i + 1;
        }
        assert(self@ =~= other@);
        true
    }
}

/// The address reached by entering `site` with `slot` from the nesting `path`.
pub open spec fn child_address(path: Seq<Frame>, site: u64, slot: u64) -> Seq<Frame> {
    path.push(Frame { site, slot })
}

/// The stack of calls currently entered.
#[derive(Debug)]
pub struct CallStack {
    frames: Vec<Frame>,
}

impl View for CallStack {
    type V = Seq<Frame>;

    closed spec fn view(&self) -> Seq<Frame> {
        self.frames@
    }
}

impl CallStack {
    /// An empty stack: the current position is the root.
    pub fn new() -> (r: CallStack)
        ensures
            r@ == Seq::<Frame>::empty(),
    {
        CallStack { frames: Vec::new() }
    }

    /// How many calls are entered.
    pub fn depth(&self) -> (r: usize)
        ensures
            r == self@.len(),
    {
        self.frames.len()
    }

    /// The address of the innermost entered call.
    pub fn current(&self) -> (r: CallAddress)
        ensures
            r@ == self@,
    {
        CallAddress { frames: copy_frames(&self.frames) }
    }

    /// Enters a nested call at `site` with `slot`, returning its address.
    pub fn enter(&mut self, site: u64, slot: u64) -> (r: CallAddress)
        ensures
            final(self)@ == child_address(old(self)@, site, slot),
            r@ == child_address(old(self)@, site, slot),
    {
        self.frames.push(Frame { site, slot });
        CallAddress { frames: copy_frames(&self.frames) }
    }

    /// Leaves the innermost entered call; at the root nothing changes.
    pub fn exit(&mut self) -> (r: Option<Frame>)
        ensures
            old(self)@.len() == 0 ==> r.is_none() && final(self)@ == old(self)@,
            old(self)@.len() > 0 ==> r == Some(old(self)@.last())
                && final(self)@ == old(self)@.drop_last(),
    {
        self.frames.pop()
    }
}

/// Entering a call depends only on the current nesting and on the site and
/// slot entered: the same nesting gives the same address, and two different
/// slots at one site give two different addresses.
pub proof fn lemma_address_determinism(
    p: Seq<Frame>,
    q: Seq<Frame>,
    site: u64,
    slot_a: u64,
    slot_b: u64,
)
    ensures
        p == q ==> child_address(p, site, slot_a) == child_address(q, site, slot_a),
        slot_a != slot_b ==> child_address(p, site, slot_a) != child_address(p, site, slot_b),
        child_address(p, site, slot_a).len() == p.len() + 1,
{
    if slot_a != slot_b {
        let a = child_address(p, site, slot_a);
        let b = child_address(p, site, slot_b);
        assert(a[p.len() as int] != b[p.len() as int]);
    }
}

} // verus!
