use crate::task::task::Task;
use std::collections::VecDeque;
use std::sync::Arc;
use vstd::prelude::*;

verus! {

/// The tasks that wait to run, in the order in which they came.
pub struct TaskManager {
    queue: VecDeque<Arc<Task>>,
}

impl TaskManager {
    /// The waiting tasks, the one that waits longest first.
    pub closed spec fn view(&self) -> Seq<Arc<Task>> {
        self.queue@
    }

    pub fn new() -> (r: Self)
        ensures
            r@ == Seq::<Arc<Task>>::empty(),
    {
        Self { queue: VecDeque::new() }
    }

    /// Puts `task` behind the tasks that wait.
    pub fn add(&mut self, task: Arc<Task>)
        ensures
            final(self)@ == old(self)@.push(task),
    {
        self.queue.push_back(task);
    }

    /// Takes the task that waits longest, if any waits.
    pub fn fetch(&mut self) -> (r: Option<Arc<Task>>)
        ensures
            match r {
                Some(task) => old(self)@.len() > 0 && task == old(self)@[0] && final(self)@ == old(
                    self,
                )@.subrange(1, old(self)@.len() as int),
                None => old(self)@.len() == 0 && final(self)@ == old(self)@,
            },
    {
        self.queue.pop_front()
    }
}

} // verus!
