//! The record that a trap from user mode saves the registers in.

use crate::trap::cpu::REGISTER_COUNT;
use vstd::prelude::*;

verus! {

/// Number of machine words in a [`TrapContext`].
pub const CONTEXT_WORDS: usize = 38;

/// Word at which the saved status register lies.
pub const SSTATUS_WORD: usize = 32;

/// Word at which the saved program counter lies.
pub const SEPC_WORD: usize = 33;

/// Word at which the kernel's page-table root lies.
pub const KERNEL_SATP_WORD: usize = 34;

/// Word at which the kernel's stack pointer lies.
pub const KERNEL_SP_WORD: usize = 35;

/// Word at which the address of the kernel's trap handler lies.
pub const USER_TRAP_HANDLER_WORD: usize = 36;

/// Word at which the user's page-table root lies.
pub const USER_SATP_WORD: usize = 37;

/// The registers saved when a trap leaves user mode, and what is needed to enter the kernel.
///
/// The code that saves and restores the registers addresses the record by word, not by field:
/// general register `i` lies at word `i`, the other fields at the words named above.
#[derive(Debug, Clone, Copy)]
pub struct TrapContext {
    /// All general registers.
    pub user_x: [usize; 32],
    /// Supervisor status register.
    pub sstatus: usize,
    /// Supervisor exception program counter.
    pub sepc: usize,
    pub kernel_satp: usize,
    pub kernel_sp: usize,
    pub user_trap_handler: usize,
    pub user_satp: usize,
}

impl TrapContext {
    /// The word at `index`.
    pub open spec fn word(self, index: int) -> usize {
        if index < REGISTER_COUNT {
            self.user_x[index]
        } else if index == SSTATUS_WORD {
            self.sstatus
        } else if index == SEPC_WORD {
            self.sepc
        } else if index == KERNEL_SATP_WORD {
            self.kernel_satp
        } else if index == KERNEL_SP_WORD {
            self.kernel_sp
        } else if index == USER_TRAP_HANDLER_WORD {
            self.user_trap_handler
        } else {
            self.user_satp
        }
    }

    /// The record as the sequence of its words.
    pub open spec fn words(self) -> Seq<usize> {
        Seq::new(CONTEXT_WORDS as nat, |index: int| self.word(index))
    }

    /// The words of the record in which every word is 0.
    pub open spec fn spec_zeroed() -> Seq<usize> {
        Seq::new(CONTEXT_WORDS as nat, |i: int| 0usize)
    }

    /// The record in which every word is 0.
    pub fn empty() -> (r: Self)
        ensures
            r.words() == Self::spec_zeroed(),
    {
        let r = Self {
            user_x: [0; 32],
            sstatus: 0,
            sepc: 0,
            kernel_satp: 0,
            kernel_sp: 0,
            user_trap_handler: 0,
            user_satp: 0,
        };
        proof {
            assert(r.words() =~= Self::spec_zeroed());
        }
        r
    }

    /// Reads the word at `index`.
    pub fn load(&self, index: usize) -> (r: usize)
        requires
            index < CONTEXT_WORDS,
        ensures
            r == self.word(index as int),
    {
        if index < REGISTER_COUNT {
            self.user_x[index]
        } else if index == SSTATUS_WORD {
            self.sstatus
        } else if index == SEPC_WORD {
            self.sepc
        } else if index == KERNEL_SATP_WORD {
            self.kernel_satp
        } else if index == KERNEL_SP_WORD {
            self.kernel_sp
        } else if index == USER_TRAP_HANDLER_WORD {
            self.user_trap_handler
        } else {
            self.user_satp
        }
    }

    /// Writes `value` to the word at `index`.
    pub fn store(&mut self, index: usize, value: usize)
        requires
            index < CONTEXT_WORDS,
        ensures
            final(self).word(index as int) == value,
            forall|other: int|
                0 <= other < CONTEXT_WORDS && other != index ==> #[trigger] final(self).word(other)
                    == old(self).word(other),
            final(self).words() == old(self).words().update(index as int, value),
    {
        if index < REGISTER_COUNT {
            self.user_x[index] = value;
        } else if index == SSTATUS_WORD {
            self.sstatus = value;
        } else if index == SEPC_WORD {
            self.sepc = value;
        } else if index == KERNEL_SATP_WORD {
            self.kernel_satp = value;
        } else if index == KERNEL_SP_WORD {
            self.kernel_sp = value;
        } else if index == USER_TRAP_HANDLER_WORD {
            self.user_trap_handler = value;
        } else {
            self.user_satp = value;
        }
        proof {
            assert(self.words() =~= old(self).words().update(index as int, value));
        }
    }
}

} // verus!
