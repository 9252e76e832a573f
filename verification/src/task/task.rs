use crate::mem::space::AddrSpace;
use crate::task::tid::TidHandle;
use crate::trap::context::TrapContext;
use vstd::prelude::*;

verus! {

/// A unit of work: an address space and the registers to run it with.
pub struct Task {
    tid: TidHandle,
    space: AddrSpace,
    trap_context: TrapContext,
}

impl Task {
    pub closed spec fn spec_tid(&self) -> usize {
        self.tid.0
    }

    pub closed spec fn spec_space(&self) -> AddrSpace {
        self.space
    }

    pub closed spec fn spec_trap_context(&self) -> TrapContext {
        self.trap_context
    }

    /// A task with the number `tid`, the address space `space` and every saved register 0.
    pub fn new(tid: TidHandle, space: AddrSpace) -> (r: Self)
        ensures
            r.spec_tid() == tid.0,
            r.spec_space() == space,
            r.spec_trap_context().words() == TrapContext::spec_zeroed(),
    {
        Task { tid, space, trap_context: TrapContext::empty() }
    }

    /// The task's number.
    #[verifier::when_used_as_spec(spec_tid)]
    pub fn tid(&self) -> (r: usize)
        ensures
            r == self.spec_tid(),
    {
        self.tid.0
    }

    /// The task's address space.
    pub fn space(&self) -> (r: &AddrSpace)
        ensures
            *r == self.spec_space(),
    {
        &self.space
    }

    /// The task's saved registers.
    pub fn trap_context(&self) -> (r: &TrapContext)
        ensures
            *r == self.spec_trap_context(),
    {
        &self.trap_context
    }

    /// The task's saved registers, to be written.
    pub fn trap_context_mut(&mut self) -> (r: &mut TrapContext)
        ensures
            *r == old(self).spec_trap_context(),
            final(self).spec_trap_context() == *final(r),
            final(self).spec_tid() == old(self).spec_tid(),
            final(self).spec_space() == old(self).spec_space(),
    {
        &mut self.trap_context
    }
}

} // verus!
