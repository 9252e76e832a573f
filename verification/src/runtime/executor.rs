use crate::task::task::Task;
use std::collections::BTreeMap;
use std::collections::VecDeque;
use vstd::prelude::*;

verus! {

/// The tasks of the machine: those that are ready to run, in the order in which they became
/// ready, and those that wait for something, by their number.
pub struct Executor {
    ready: VecDeque<Box<Task>>,
    pending: BTreeMap<usize, Box<Task>>,
}

impl Executor {
    /// The ready tasks, the one that is ready longest first.
    pub closed spec fn ready(&self) -> Seq<Box<Task>> {
        self.ready@
    }

    /// The waiting tasks, by their number.
    pub closed spec fn pending(&self) -> Map<usize, Box<Task>> {
        self.pending@
    }

    pub fn new() -> (r: Self)
        ensures
            r.ready() == Seq::<Box<Task>>::empty(),
            r.pending() == Map::<usize, Box<Task>>::empty(),
    {
        Self { ready: VecDeque::new(), pending: BTreeMap::new() }
    }

    /// Puts `task` behind the ready tasks.
    pub fn add(&mut self, task: Box<Task>)
        ensures
            final(self).ready() == old(self).ready().push(task),
            final(self).pending() == old(self).pending(),
    {
        self.ready.push_back(task);
    }

    /// Takes the task that is ready longest, if any is ready.
    pub fn fetch(&mut self) -> (r: Option<Box<Task>>)
        ensures
            final(self).pending() == old(self).pending(),
            match r {
                Some(task) => old(self).ready().len() > 0 && task == old(self).ready()[0] && final(self).ready() == old(self).ready().subrange(1, old(self).ready().len() as int),
                None => old(self).ready().len() == 0 && final(self).ready() == old(self).ready(),
            },
    {
        self.ready.pop_front()
    }
}

/// The executor that the machine starts with: no task is ready and none waits.
pub fn init_executor() -> (r: Executor)
    ensures
        r.ready() == Seq::<Box<Task>>::empty(),
        r.pending() == Map::<usize, Box<Task>>::empty(),
{
    Executor::new()
}

} // verus!
