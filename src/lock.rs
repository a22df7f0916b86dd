use vstd::prelude::*;

verus! {

/// The calling thread's view of the process-wide lock that serialises all
/// use of native unwind and symbol state: whether this thread holds it now.
#[derive(Clone, Copy, Debug, PartialEq, Eq, Structural)]
pub struct LockState {
    pub held: bool,
}

impl LockState {
    /// A thread that has not entered the lock.
    pub fn new() -> (r: LockState)
        ensures
            !r.held,
    {
        LockState { held: false }
    }
}

/// Evidence that the calling thread holds the lock. Only `lock` makes one,
/// and `LockGuard::release` gives it back.
#[derive(Debug)]
pub struct LockGuard {
    token: (),
}

/// Takes the lock for the calling thread. A thread that already holds it
/// gets `None` at once instead of waiting on itself.
pub fn lock(state: &mut LockState) -> (r: Option<LockGuard>)
    ensures
        r.is_some() == !old(state).held,
        final(state).held,
{
    if state.held {
        return None;
    }
    state.held = true;
    Some(LockGuard { token: () })
}

impl LockGuard {
    /// Gives the lock back: the thread no longer holds it.
    pub fn release(self, state: &mut LockState)
        requires
            old(state).held,
        ensures
            !final(state).held,
    {
        state.held = false;
    }
}

} // verus!
