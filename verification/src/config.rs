use vstd::prelude::*;

verus! {

/// Size in bytes of one physical frame and of one virtual page.
pub const PAGE_SIZE_4K: usize = 0x1000;

/// Number of core slots the kernel keeps a record for.
pub const MAX_HARTS: usize = 8;

/// Virtual address of the trampoline page: the last page of the address space.
pub const TRAMPOLINE: usize = usize::MAX - PAGE_SIZE_4K + 1;

/// Size in bytes of the stack each core boots on.
pub const BOOT_STACK_SIZE: usize = 0x1_0000;

/// Size in bytes of the kernel stack kept in each core-local record.
pub const KERNEL_STACK_SIZE: usize = 0x20_0000;

} // verus!
