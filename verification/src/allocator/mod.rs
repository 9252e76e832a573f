use crate::allocator::frame::init_frame_allocator;
use crate::allocator::frame::PhysFrameAllocator;
use crate::allocator::heap::init_heap_allocator;
use crate::allocator::heap::HeapRegion;
use crate::allocator::heap::HEAP_INIT_PAGES;
use crate::config::PAGE_SIZE_4K;
use crate::dtb::MachineMeta;
use crate::mem::addr::PhysAddr;
use vstd::prelude::*;
use vstd::set_lib::set_int_range;

pub mod bitmap;
pub mod frame;
pub mod heap;
pub mod recycle;

verus! {

/// What [`init`] does. Where the memory behind the kernel image is a window that the frame
/// allocator accepts, the allocator takes it over; if the window has enough frames for the
/// heap, its first frames are taken for it and returned. In every other case nothing is
/// returned, and where the window is not accepted the allocator is as it was.
pub open spec fn allocators_set_up(
    frames: &PhysFrameAllocator,
    frames_after: &PhysFrameAllocator,
    ekernel: usize,
    meta: &MachineMeta,
    r: Option<HeapRegion>,
) -> bool {
    let end = meta.spec_phys_mem_start() + meta.spec_phys_mem_size();
    let window = PhysFrameAllocator::window_of(ekernel as int, end - ekernel);
    if ekernel <= end && window.is_some() {
        let (base, total) = window.unwrap();
        &&& frames_after.wf()
        &&& frames_after.base() == base
        &&& frames_after.spec_total_frames() == total
        &&& if total >= HEAP_INIT_PAGES {
            &&& r == Some(
                HeapRegion {
                    start: PhysAddr(base as usize),
                    size: (HEAP_INIT_PAGES * PAGE_SIZE_4K) as usize,
                },
            )
            &&& frames_after.free_frames() == set_int_range(HEAP_INIT_PAGES as int, total)
            &&& frames_after.spec_used_frames() == HEAP_INIT_PAGES
        } else {
            &&& r is None
            &&& frames_after.free_frames() == set_int_range(0, total)
            &&& frames_after.spec_used_frames() == 0
        }
    } else {
        &&& r is None
        &&& *frames_after == *frames
    }
}

/// Sets up the allocators at boot: `frames` takes over the memory behind the kernel image,
/// which ends at `ekernel`, and the first frames of it are taken for the heap.
pub fn init(frames: &mut PhysFrameAllocator, ekernel: usize, meta: &MachineMeta) -> (r: Option<
    HeapRegion,
>)
    requires
        meta.wf(),
    ensures
        allocators_set_up(old(frames), final(frames), ekernel, meta, r),
{
    if !init_frame_allocator(frames, ekernel, meta) {
        return None;
    }
    let ghost ready = *frames;
    let r = init_heap_allocator(frames);
    proof {
        let total = ready.spec_total_frames() as int;
        let pages = HEAP_INIT_PAGES as int;
        if total >= pages {
            assert(ready.frame_addr(0) == ready.base());
            assert(ready.run_available(0, pages, PAGE_SIZE_4K as int));
            let idx = ready.frame_index(r.unwrap().start.0 as int);
            assert(idx == 0);
            assert(frames.free_frames() =~= set_int_range(pages, total));
        } else {
            assert forall|c: int| !#[trigger] ready.run_available(c, pages, PAGE_SIZE_4K as int) by {}
        }
    }
    r
}

} // verus!
