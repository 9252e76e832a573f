//! The registers of a core.

use vstd::prelude::*;

verus! {

/// Number of the stack pointer among the general registers.
pub const SP: usize = 2;

/// Number of the thread pointer, which holds the core-local record and is never saved.
pub const TP: usize = 4;

/// Numbers of the three temporaries that the entry path from user mode uses once they are
/// saved.
pub const T0: usize = 5;

pub const T1: usize = 6;

pub const T2: usize = 7;

/// Number of general registers.
pub const REGISTER_COUNT: usize = 32;

/// The state of a core as far as the two trap paths read or write it.
#[derive(Debug, Clone, Copy)]
pub struct Cpu {
    /// The general registers.
    pub x: [usize; 32],
    pub sstatus: usize,
    pub sepc: usize,
    pub sscratch: usize,
    /// The active page-table root.
    pub satp: usize,
    /// The address of the next instruction.
    pub pc: usize,
}

} // verus!
