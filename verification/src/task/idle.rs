use vstd::prelude::*;

verus! {

/// What a core runs when no task is ready: it never finishes.
pub struct IdleTask {}

impl IdleTask {
    pub fn new() -> (r: Self) {
        Self {  }
    }

    /// Whether the idle task has finished: never.
    pub fn poll(&self) -> (finished: bool)
        ensures
            !finished,
    {
        false
    }
}

} // verus!
