//! The records of the cores.

use crate::config::KERNEL_STACK_SIZE;
use crate::config::MAX_HARTS;
use crate::runtime::executor::Executor;
use crate::task::idle::IdleTask;
use crate::task::task::Task;
use crate::trap::user_trap::user_trap_return;
use crate::trap::user_trap::UserReturn;
use vstd::prelude::*;

verus! {

/// The record of one core: its number, its kernel stack, the task it runs, and what it runs
/// when it has no task.
pub struct Hart {
    hart_id: usize,
    claimed: bool,
    kernel_stack: Vec<u8>,
    task: Option<Box<Task>>,
    idle: IdleTask,
}

/// The records of all cores, one for each core that the machine can have.
///
/// A core claims its record once, when it starts; from then on it alone reads and writes the
/// record, which it finds by its number.
pub struct HartTable {
    harts: Vec<Hart>,
}

impl Hart {
    pub closed spec fn spec_hart_id(&self) -> usize {
        self.hart_id
    }

    /// Whether a core has claimed the record.
    pub closed spec fn spec_is_claimed(&self) -> bool {
        self.claimed
    }

    /// The task that the core runs, if it runs one.
    pub closed spec fn spec_task(&self) -> Option<Box<Task>> {
        self.task
    }

    /// The bytes of the record's kernel stack.
    pub closed spec fn stack(&self) -> Seq<u8> {
        self.kernel_stack@
    }

    /// The record as it is before a core claims it: number 0, a kernel stack of zeros, no task.
    pub open spec fn is_empty(&self) -> bool {
        &&& self.spec_hart_id() == 0
        &&& !self.spec_is_claimed()
        &&& self.spec_task() is None
        &&& self.stack() == Seq::new(KERNEL_STACK_SIZE as nat, |i: int| 0u8)
    }

    /// A record that no core has claimed: number 0, a kernel stack of zeros, no task.
    pub fn empty() -> (r: Self)
        ensures
            r.is_empty(),
    {
        let r = Self {
            hart_id: 0,
            claimed: false,
            kernel_stack: vec![0u8; KERNEL_STACK_SIZE],
            task: None,
            idle: IdleTask::new(),
        };
        proof {
            assert(r.stack() =~= Seq::new(KERNEL_STACK_SIZE as nat, |i: int| 0u8));
        }
        r
    }

    /// The core's number.
    #[verifier::when_used_as_spec(spec_hart_id)]
    pub fn hart_id(&self) -> (r: usize)
        ensures
            r == self.spec_hart_id(),
    {
        self.hart_id
    }

    /// Whether a core has claimed the record.
    #[verifier::when_used_as_spec(spec_is_claimed)]
    pub fn is_claimed(&self) -> (r: bool)
        ensures
            r == self.spec_is_claimed(),
    {
        self.claimed
    }

    /// The task that the core runs, if it runs one.
    pub fn task(&self) -> (r: &Option<Box<Task>>)
        ensures
            *r == self.spec_task(),
    {
        &self.task
    }
}

/// The records `after` are the records `before` but for the record of core `hart_id`, which now
/// runs `task` and is otherwise as it was.
pub open spec fn runs(before: Seq<Hart>, after: Seq<Hart>, hart_id: usize, task: Box<Task>) -> bool {
    &&& after.len() == before.len()
    &&& after[hart_id as int].spec_task() == Some(task)
    &&& after[hart_id as int].spec_hart_id() == before[hart_id as int].spec_hart_id()
    &&& after[hart_id as int].spec_is_claimed() == before[hart_id as int].spec_is_claimed()
    &&& after[hart_id as int].stack() == before[hart_id as int].stack()
    &&& forall|i: int| 0 <= i < before.len() && i != hart_id ==> #[trigger] after[i] == before[i]
}

impl HartTable {
    /// The records, by core number.
    pub closed spec fn view(&self) -> Seq<Hart> {
        self.harts@
    }

    /// There is one record for each core that the machine can have, and a claimed record holds
    /// the number of its core.
    pub open spec fn wf(&self) -> bool {
        &&& self@.len() == MAX_HARTS
        &&& forall|i: int|
            0 <= i < MAX_HARTS && (#[trigger] self@[i]).spec_is_claimed() ==> self@[i].spec_hart_id()
                == i
    }

    /// The records at boot: none is claimed.
    pub fn new() -> (r: Self)
        ensures
            r.wf(),
            forall|i: int| 0 <= i < MAX_HARTS ==> (#[trigger] r@[i]).is_empty(),
    {
        let mut harts: Vec<Hart> = Vec::new();
        let mut i: usize = 0;
        while i < MAX_HARTS
            invariant
                i <= MAX_HARTS,
                harts.len() == i,
                forall|k: int| 0 <= k < i ==> (#[trigger] harts@[k]).is_empty(),
            decreases MAX_HARTS - i,
        {
            harts.push(Hart::empty());
            i = i + 1;
        }
        Self { harts }
    }

    /// Claims the record of core `hart_id` for the core that calls. Returns `true` when the
    /// machine can have such a core and its record was not claimed; the record then holds the
    /// number. Otherwise returns `false` and changes nothing.
    pub fn set_local_hart(&mut self, hart_id: usize) -> (ok: bool)
        requires
            old(self).wf(),
        ensures
            final(self).wf(),
            ok == (hart_id < MAX_HARTS && !old(self)@[hart_id as int].spec_is_claimed()),
            ok ==> {
                &&& final(self)@[hart_id as int].spec_is_claimed()
                &&& final(self)@[hart_id as int].spec_hart_id() == hart_id
                &&& final(self)@[hart_id as int].spec_task() == old(self)@[hart_id as int].spec_task()
                &&& final(self)@[hart_id as int].stack() == old(self)@[hart_id as int].stack()
                &&& forall|i: int|
                    0 <= i < MAX_HARTS && i != hart_id ==> #[trigger] final(self)@[i] == old(
                        self,
                    )@[i]
            },
            !ok ==> final(self)@ == old(self)@,
    {
        if hart_id >= MAX_HARTS || self.harts[hart_id].claimed {
            return false;
        }
        let hart = &mut self.harts[hart_id];
        hart.hart_id = hart_id;
        hart.claimed = true;
        true
    }

    /// The record of core `hart_id`.
    pub fn local_hart(&self, hart_id: usize) -> (r: &Hart)
        requires
            self.wf(),
            hart_id < MAX_HARTS,
        ensures
            *r == self@[hart_id as int],
    {
        &self.harts[hart_id]
    }

    /// Makes `task` the task that core `hart_id` runs, and says how the core goes to the
    /// task's user code. The task that the core ran before, if any, is dropped.
    pub fn run_task(&mut self, hart_id: usize, task: Box<Task>) -> (r: UserReturn)
        requires
            old(self).wf(),
            hart_id < MAX_HARTS,
        ensures
            final(self).wf(),
            runs(old(self)@, final(self)@, hart_id, task),
            r.stvec.address == crate::config::TRAMPOLINE,
            r.user_satp == task.spec_trap_context().user_satp,
    {
        let plan = user_trap_return(task.trap_context());
        let hart = &mut self.harts[hart_id];
        hart.task = Some(task);
        plan
    }

    /// Takes the task that is ready longest and runs it on core `hart_id`, as
    /// [`Self::run_task`] does; `None`, with nothing changed, when no task is ready.
    pub fn run_first(&mut self, hart_id: usize, executor: &mut Executor) -> (r: Option<UserReturn>)
        requires
            old(self).wf(),
            hart_id < MAX_HARTS,
        ensures
            final(self).wf(),
            final(executor).pending() == old(executor).pending(),
            r is Some <==> old(executor).ready().len() > 0,
            match r {
                Some(plan) => {
                    let task = old(executor).ready()[0];
                    &&& final(executor).ready() == old(executor).ready().subrange(
                        1,
                        old(executor).ready().len() as int,
                    )
                    &&& runs(old(self)@, final(self)@, hart_id, task)
                    &&& plan.stvec.address == crate::config::TRAMPOLINE
                    &&& plan.user_satp == task.spec_trap_context().user_satp
                },
                None => final(self)@ == old(self)@ && final(executor).ready() == old(
                    executor,
                ).ready(),
            },
    {
        match executor.fetch() {
            Some(task) => Some(self.run_task(hart_id, task)),
            None => None,
        }
    }
}

/// What a core does to the records when it starts: it claims its own.
pub fn init(table: &mut HartTable, hart_id: usize) -> (ok: bool)
    requires
        old(table).wf(),
    ensures
        final(table).wf(),
        ok == (hart_id < MAX_HARTS && !old(table)@[hart_id as int].spec_is_claimed()),
        ok ==> final(table)@[hart_id as int].spec_is_claimed() && final(table)@[hart_id as int].spec_hart_id() == hart_id,
        !ok ==> final(table)@ == old(table)@,
{
    table.set_local_hart(hart_id)
}

} // verus!
