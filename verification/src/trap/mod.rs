use crate::trap::user_trap::set_kernel_trap;
use crate::trap::user_trap::StvecUpdate;
use vstd::prelude::*;

pub mod context;
pub mod cpu;
pub mod kernel_trap;
pub mod user_trap;

verus! {

/// What a core does to its trap vector when it starts: traps are the kernel's own, and enter
/// at `trap_from_kernel`.
pub fn init(trap_from_kernel: usize) -> (r: StvecUpdate)
    ensures
        r.address == trap_from_kernel,
{
    set_kernel_trap(trap_from_kernel)
}

} // verus!
