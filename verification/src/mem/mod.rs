use crate::allocator::frame::PhysFrameAllocator;
use crate::dtb::MachineMeta;
use crate::error::KResult;
use crate::mem::space::init_kernel_space;
use crate::mem::space::kernel_space_built;
use crate::mem::space::kernel_space_model;
use crate::mem::space::AddrSpace;
use crate::mem::space::KernelLayout;
use crate::mem::space::SatpUpdate;
use vstd::prelude::*;

pub mod addr;
pub mod page_table;
pub mod pte;
pub mod space;
pub mod table_model;

verus! {

/// Sets up memory management at boot: builds the kernel's address space.
pub fn init(frames: &mut PhysFrameAllocator, layout: &KernelLayout, meta: &MachineMeta) -> (r:
    KResult<AddrSpace>)
    requires
        old(frames).wf(),
        layout.wf(),
        meta.wf(),
    ensures
        final(frames).wf(),
        kernel_space_built(
            old(frames),
            final(frames),
            kernel_space_model(old(frames).spec_available_frames(), *layout, *meta),
            r,
        ),
{
    init_kernel_space(frames, layout, meta)
}

/// What a core writes to its translation register to run on the kernel's address space.
pub fn swich_kernel_space(kernel_space: &AddrSpace) -> (r: SatpUpdate)
    ensures
        r.asid == 0,
        r.ppn == kernel_space.spec_page_table().spec_root_paddr().0 / crate::config::PAGE_SIZE_4K,
{
    kernel_space.switch()
}

} // verus!
