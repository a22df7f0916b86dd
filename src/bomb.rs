use vstd::prelude::*;

verus! {

/// A scoped marker that is armed while native unwind or symbol state is
/// being touched under the lock. Whoever owns it terminates the process if
/// it goes out of scope while still armed.
pub struct Bomb {
    pub enabled: bool,
}

impl Bomb {
    /// A marker in the armed state.
    pub fn armed() -> (r: Bomb)
        ensures
            r.enabled,
    {
        Bomb { enabled: true }
    }

    /// Disarms the marker on the clean-return path.
    pub fn disarm(&mut self)
        ensures
            !final(self).enabled,
    {
        self.enabled = false;
    }

    /// Whether dropping the marker now must end the process.
    pub fn must_abort(&self) -> (r: bool)
        ensures
            r == self.enabled,
    {
        self.enabled
    }
}

} // verus!
