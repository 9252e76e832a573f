//! The memory management and the privilege transitions of a small RISC-V kernel: a frame
//! allocator, the growth of the heap, three-level page tables, address spaces, the two trap
//! paths and the records of the cores.
//!
//! Nothing here touches the machine. Memory, registers and the firmware are the caller's: every
//! function takes what it needs as a value and returns what has to be done.

pub mod allocator;
pub mod boot;
pub mod config;
pub mod dtb;
pub mod error;
pub mod hart;
pub mod logging;
pub mod mem;
pub mod runtime;
pub mod task;
pub mod trap;
