use crate::allocator::recycle::RecycleAllocator;
use vstd::prelude::*;

verus! {

/// The number a task is known by, for as long as the task holds it.
#[derive(Debug)]
pub struct TidHandle(pub usize);

impl TidHandle {
    /// Gives the number back to the allocator it came from.
    pub fn release(self, allocator: &mut RecycleAllocator)
        requires
            old(allocator).wf(),
            old(allocator).held().contains(self.0),
        ensures
            final(allocator).wf(),
            final(allocator).held() == old(allocator).held().remove(self.0),
            final(allocator).recycled() == old(allocator).recycled().push(self.0),
            final(allocator).current() == old(allocator).current(),
    {
        allocator.dealloc(self.0)
    }
}

/// Takes a task number that no task holds.
pub fn alloc_tid(allocator: &mut RecycleAllocator) -> (r: TidHandle)
    requires
        old(allocator).wf(),
        old(allocator).recycled().len() > 0 || old(allocator).current() < usize::MAX,
    ensures
        final(allocator).wf(),
        !old(allocator).held().contains(r.0),
        final(allocator).held() == old(allocator).held().insert(r.0),
        r.0 == if old(allocator).recycled().len() > 0 {
            old(allocator).recycled().last()
        } else {
            old(allocator).current()
        },
{
    TidHandle(allocator.alloc_id())
}

} // verus!
