use vstd::prelude::*;
use crate::lock::{lock, LockState};

verus! {

/// One physical stack frame as a walk reports it.
#[derive(Clone, Copy, Debug, PartialEq, Eq, Structural)]
pub struct Frame {
    pub ip: usize,
    pub sp: usize,
    pub symbol_address: usize,
}

impl Frame {
    /// The return address of the call that made this frame.
    pub fn ip(&self) -> (r: usize)
        ensures
            r == self.ip,
    {
        self.ip
    }

    /// The stack pointer of this frame.
    pub fn sp(&self) -> (r: usize)
        ensures
            r == self.sp,
    {
        self.sp
    }

    /// The address to look symbols up by.
    pub fn symbol_address(&self) -> (r: usize)
        ensures
            r == self.symbol_address,
    {
        self.symbol_address
    }
}

/// The frames of a raw walk that a visitor is offered: all of them but the
/// first `machinery`, which belong to the walking code itself.
pub open spec fn offered(raw: Seq<Frame>, machinery: nat) -> Seq<Frame> {
    if machinery >= raw.len() {
        Seq::empty()
    } else {
        raw.subrange(machinery as int, raw.len() as int)
    }
}

/// The frames offered to a visitor are the raw walk's frames from
/// `machinery` on, in the walk's order: the first is the caller of the
/// walking code, and none of the walking code's own frames is among them.
pub proof fn lemma_offered_skips_machinery(raw: Seq<Frame>, machinery: nat)
    ensures
        offered(raw, machinery).len() == if machinery >= raw.len() { 0 } else { raw.len() - machinery },
        forall|i: int| 0 <= i < offered(raw, machinery).len() ==>
            #[trigger] offered(raw, machinery)[i] == raw[machinery + i],
{
}

/// `n` is how many of `frames` a walk visits with `visit`: the visitor was
/// handed each of the first `n` frames in turn, said "go on" to each but the
/// last, and the walk ended either at the end of `frames` or at a frame where
/// it said "stop".
pub open spec fn visits<V: Fn(&Frame) -> bool>(frames: Seq<Frame>, visit: V, n: nat) -> bool {
    &&& n <= frames.len()
    &&& (frames.len() > 0 ==> n > 0)
    &&& forall|i: int| 0 <= i < n - 1 ==> #[trigger] call_ensures(visit, (&frames[i],), true)
    &&& n < frames.len() ==> call_ensures(visit, (&frames[n - 1],), false)
    &&& n > 0 ==> exists|r: bool| #[trigger] call_ensures(visit, (&frames[n - 1],), r)
}

/// Offers the frames of a finished raw walk to `visit`, innermost first,
/// skipping the walking code's own `machinery` frames, and stops as soon as
/// the visitor returns `false`. Returns how many frames were visited.
pub fn visit_frames<V: Fn(&Frame) -> bool>(raw: &Vec<Frame>, machinery: usize, visit: V) -> (n: usize)
    requires
        forall|f: &Frame| call_requires(visit, (f,)),
    ensures
        visits(offered(raw@, machinery as nat), visit, n as nat),
        n > 0 ==> offered(raw@, machinery as nat)[0] == raw@[machinery as int],
        (forall|f: &Frame, r: bool| call_ensures(visit, (f,), r) ==> !r)
            && offered(raw@, machinery as nat).len() > 0 ==> n == 1,
{
    let ghost o = offered(raw@, machinery as nat);
    if machinery >= raw.len() {
        return 0;
    }
    let mut i: usize = machinery;
    while i < raw.len()
        invariant
            machinery <= i <= raw.len(),
            machinery < raw.len(),
            o == raw@.subrange(machinery as int, raw.len() as int),
            forall|f: &Frame| call_requires(visit, (f,)),
            forall|k: int| 0 <= k < i - machinery ==> #[trigger] call_ensures(visit, (&o[k],), true),
        decreases raw.len() - i,
    {
        let go_on = visit(&raw[i]);
        assert(o[i - machinery] == raw@[i as int]);
        if i > machinery {
            assert(call_ensures(visit, (&o[0],), true));
        }
        assert(call_ensures(visit, (&o[i - machinery],), go_on));
        if !go_on {
            return i - machinery + 1;
        }
        i = i + 1;
    }
    if raw.len() - machinery > 1 {
        assert(call_ensures(visit, (&o[0],), true));
    }
    assert(call_ensures(visit, (&o[raw.len() - machinery - 1],), true));
    raw.len() - machinery
}

/// Walks the calling thread's stack and offers its frames to `visit`.
/// `walker` performs the raw native walk (innermost frame first) and is only
/// called with the lock held; its first `machinery` frames are the walking
/// code's own. A thread that already holds the lock visits nothing.
/// Returns how many frames were visited.
pub fn trace<W: Fn() -> Vec<Frame>, V: Fn(&Frame) -> bool>(
    state: &mut LockState,
    walker: W,
    machinery: usize,
    visit: V,
) -> (n: usize)
    requires
        call_requires(walker, ()),
        forall|f: &Frame| call_requires(visit, (f,)),
    ensures
        *final(state) == *old(state),
        old(state).held ==> n == 0,
        !old(state).held ==> exists|raw: Vec<Frame>|
            call_ensures(walker, (), raw) && visits(offered(raw@, machinery as nat), visit, n as nat),
        !old(state).held
            && (forall|f: &Frame, r: bool| call_ensures(visit, (f,), r) ==> !r)
            && (forall|raw: Vec<Frame>| call_ensures(walker, (), raw) ==> raw.len() > machinery)
            ==> n == 1,
{
    let guard = match lock(state) {
        Some(g) => g,
        None => return 0,
    };
    let raw = walker();
    let n = visit_frames(&raw, machinery, visit);
    proof {
        if forall|raw: Vec<Frame>| call_ensures(walker, (), raw) ==> raw.len() > machinery {
            assert(raw.len() > machinery);
            assert(offered(raw@, machinery as nat).len() > 0);
        }
    }
    guard.release(state);
    n
}

} // verus!
