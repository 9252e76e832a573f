//! Traps taken in user mode, and the way back.

use crate::config::TRAMPOLINE;
use crate::trap::context::KERNEL_SATP_WORD;
use crate::trap::context::KERNEL_SP_WORD;
use crate::trap::context::SEPC_WORD;
use crate::trap::context::SSTATUS_WORD;
use crate::trap::context::TrapContext;
use crate::trap::context::USER_SATP_WORD;
use crate::trap::context::USER_TRAP_HANDLER_WORD;
use crate::trap::cpu::Cpu;
use crate::trap::cpu::REGISTER_COUNT;
use crate::trap::cpu::SP;
use crate::trap::cpu::T0;
use crate::trap::cpu::T1;
use crate::trap::cpu::T2;
use crate::trap::cpu::TP;
use vstd::prelude::*;

verus! {

/// What the trap-vector register must hold.
#[derive(Clone, Copy, Debug, PartialEq, Eq, Structural)]
pub struct StvecUpdate {
    /// Address that every trap enters at.
    pub address: usize,
}

/// What the kernel does to go back to user mode.
#[derive(Clone, Copy, Debug, PartialEq, Eq, Structural)]
pub struct UserReturn {
    /// The trap vector to install first.
    pub stvec: StvecUpdate,
    /// The page-table root to hand to the return path.
    pub user_satp: usize,
}

/// Whether general register `i` is saved on the way into the kernel and restored on the way
/// out: every register but the constant zero and the thread pointer.
pub open spec fn is_saved(i: int) -> bool {
    1 <= i < REGISTER_COUNT && i != TP
}

/// What the entry path does. Every saved register, the status register and the program counter
/// of the trap are in the context, the rest of the context is as it was; the core runs on the
/// kernel's page table and stack at the kernel's handler, the user's stack pointer is in the
/// scratch register, and the three temporaries hold what the path loaded into them.
pub open spec fn captured(cpu: Cpu, cx: TrapContext, cpu_after: Cpu, cx_after: TrapContext) -> bool {
    &&& forall|i: int| is_saved(i) ==> #[trigger] cx_after.user_x[i] == cpu.x[i]
    &&& cx_after.user_x[0] == cx.user_x[0]
    &&& cx_after.user_x[TP as int] == cx.user_x[TP as int]
    &&& cx_after.sstatus == cpu.sstatus
    &&& cx_after.sepc == cpu.sepc
    &&& cx_after.kernel_satp == cx.kernel_satp
    &&& cx_after.kernel_sp == cx.kernel_sp
    &&& cx_after.user_trap_handler == cx.user_trap_handler
    &&& cx_after.user_satp == cx.user_satp
    &&& cpu_after.satp == cx.kernel_satp
    &&& cpu_after.pc == cx.user_trap_handler
    &&& cpu_after.sscratch == cpu.x[SP as int]
    &&& cpu_after.sstatus == cpu.sstatus
    &&& cpu_after.sepc == cpu.sepc
    &&& cpu_after.x[SP as int] == cx.kernel_sp
    &&& cpu_after.x[T0 as int] == cx.kernel_satp
    &&& cpu_after.x[T1 as int] == cx.user_trap_handler
    &&& cpu_after.x[T2 as int] == cpu.x[SP as int]
    &&& forall|i: int|
        0 <= i < REGISTER_COUNT && i != SP && i != T0 && i != T1 && i != T2
            ==> #[trigger] cpu_after.x[i] == cpu.x[i]
}

/// What the return path does. The core runs on the page table `user_satp`, every saved
/// register and the status register hold what the context holds, execution goes on at the
/// context's program counter, and the scratch register holds the context's address.
pub open spec fn resumed(
    cpu: Cpu,
    cx: TrapContext,
    cx_addr: usize,
    user_satp: usize,
    cpu_after: Cpu,
) -> bool {
    &&& forall|i: int| is_saved(i) ==> #[trigger] cpu_after.x[i] == cx.user_x[i]
    &&& cpu_after.x[0] == cpu.x[0]
    &&& cpu_after.x[TP as int] == cpu.x[TP as int]
    &&& cpu_after.sstatus == cx.sstatus
    &&& cpu_after.sepc == cx.sepc
    &&& cpu_after.pc == cx.sepc
    &&& cpu_after.satp == user_satp
    &&& cpu_after.sscratch == cx_addr
}

/// The entry path from user mode, word by word as the trampoline code does it.
///
/// On entry the stack pointer holds the user's stack pointer; the context is the one that the
/// scratch register points to.
pub fn trap_from_user(cpu: &mut Cpu, cx: &mut TrapContext)
    ensures
        captured(*old(cpu), *old(cx), *final(cpu), *final(cx)),
{
    let user_sp: usize = cpu.x[SP];
    cx.store(1, cpu.x[1]);
    cx.store(3, cpu.x[3]);
    let mut i: usize = 5;
    while i < REGISTER_COUNT
        invariant
            5 <= i <= REGISTER_COUNT,
            *cpu == *old(cpu),
            cx.word(1) == cpu.x[1],
            cx.word(3) == cpu.x[3],
            forall|k: int| 5 <= k < i ==> #[trigger] cx.word(k) == cpu.x[k],
            kept(*old(cx), *cx),
        decreases REGISTER_COUNT - i,
    {
        cx.store(i, cpu.x[i]);
        i = i + 1;
    }
    cx.store(SSTATUS_WORD, cpu.sstatus);
    proof {
        assert(kept(*old(cx), *cx));
        assert(cx.word(1) == cpu.x[1] && cx.word(3) == cpu.x[3]);
        assert forall|k: int| 5 <= k < REGISTER_COUNT implies #[trigger] cx.word(k)
            == cpu.x[k] by {}
    }
    cx.store(SEPC_WORD, cpu.sepc);
    proof {
        assert(kept(*old(cx), *cx));
        assert(cx.word(1) == cpu.x[1] && cx.word(3) == cpu.x[3]);
        assert(cx.word(SSTATUS_WORD as int) == cpu.sstatus);
        assert forall|k: int| 5 <= k < REGISTER_COUNT implies #[trigger] cx.word(k)
            == cpu.x[k] by {}
    }
    cx.store(SP, user_sp);
    proof {
        assert(kept(*old(cx), *cx));
        assert(cx.word(1) == cpu.x[1] && cx.word(3) == cpu.x[3]);
        assert(cx.word(SSTATUS_WORD as int) == cpu.sstatus);
        assert(cx.word(SEPC_WORD as int) == cpu.sepc);
        assert forall|k: int| 5 <= k < REGISTER_COUNT implies #[trigger] cx.word(k)
            == cpu.x[k] by {}
    }
    let kernel_satp: usize = cx.load(KERNEL_SATP_WORD);
    let handler: usize = cx.load(USER_TRAP_HANDLER_WORD);
    let kernel_sp: usize = cx.load(KERNEL_SP_WORD);
    cpu.sscratch = user_sp;
    cpu.x[T0] = kernel_satp;
    cpu.x[T1] = handler;
    cpu.x[T2] = user_sp;
    cpu.x[SP] = kernel_sp;
    cpu.satp = kernel_satp;
    cpu.pc = handler;
    proof {
        assert forall|k: int| is_saved(k) implies #[trigger] cx.user_x[k] == old(cpu).x[k] by {
            assert(cx.word(k) == cx.user_x[k]);
        }
    }
}

/// The words that the entry path does not write are in `after` what they are in `before`.
pub open spec fn kept(before: TrapContext, after: TrapContext) -> bool {
    &&& after.word(0) == before.word(0)
    &&& after.word(TP as int) == before.word(TP as int)
    &&& after.word(KERNEL_SATP_WORD as int) == before.word(KERNEL_SATP_WORD as int)
    &&& after.word(KERNEL_SP_WORD as int) == before.word(KERNEL_SP_WORD as int)
    &&& after.word(USER_TRAP_HANDLER_WORD as int) == before.word(USER_TRAP_HANDLER_WORD as int)
    &&& after.word(USER_SATP_WORD as int) == before.word(USER_SATP_WORD as int)
}

/// The return path to user mode, word by word as the trampoline code does it: `cx_addr` is the
/// address at which user space sees the context, `user_satp` the user's page-table root.
pub fn return_to_user(cpu: &mut Cpu, cx: &TrapContext, cx_addr: usize, user_satp: usize)
    ensures
        resumed(*old(cpu), *cx, cx_addr, user_satp, *final(cpu)),
{
    cpu.satp = user_satp;
    cpu.sscratch = cx_addr;
    cpu.sstatus = cx.load(SSTATUS_WORD);
    cpu.sepc = cx.load(SEPC_WORD);
    cpu.x[1] = cx.load(1);
    cpu.x[3] = cx.load(3);
    let mut i: usize = 5;
    while i < REGISTER_COUNT
        invariant
            5 <= i <= REGISTER_COUNT,
            cpu.x[1] == cx.word(1),
            cpu.x[3] == cx.word(3),
            forall|k: int| 5 <= k < i ==> #[trigger] cpu.x[k] == cx.word(k),
            cpu.x[0] == old(cpu).x[0],
            cpu.x[TP as int] == old(cpu).x[TP as int],
            cpu.sstatus == cx.sstatus,
            cpu.sepc == cx.sepc,
            cpu.satp == user_satp,
            cpu.sscratch == cx_addr,
        decreases REGISTER_COUNT - i,
    {
        cpu.x[i] = cx.load(i);
        i = i + 1;
    }
    cpu.x[SP] = cx.load(SP);
    cpu.pc = cpu.sepc;
    proof {
        assert forall|k: int| is_saved(k) implies #[trigger] cpu.x[k] == cx.user_x[k] by {
            assert(cx.word(k) == cx.user_x[k]);
        }
    }
}

/// Entering through the entry path and leaving through the return path brings every saved
/// register and the status register back to what they were when the trap was taken, and
/// execution goes on at the program counter that the handler left in the context: that of the
/// trap, unless the handler moved it.
///
/// `cx_handled` is the context after the handler has run; a handler leaves the saved
/// registers and the saved status register as they are. `cpu_handled` is the core when the
/// kernel starts the return path, in whatever state the kernel left it.
pub proof fn lemma_trap_round_trip(
    cpu: Cpu,
    cx: TrapContext,
    cpu_entered: Cpu,
    cx_entered: TrapContext,
    cpu_handled: Cpu,
    cx_handled: TrapContext,
    cx_addr: usize,
    user_satp: usize,
    cpu_resumed: Cpu,
)
    requires
        captured(cpu, cx, cpu_entered, cx_entered),
        cx_handled.user_x == cx_entered.user_x,
        cx_handled.sstatus == cx_entered.sstatus,
        resumed(cpu_handled, cx_handled, cx_addr, user_satp, cpu_resumed),
    ensures
        forall|i: int| is_saved(i) ==> #[trigger] cpu_resumed.x[i] == cpu.x[i],
        cpu_resumed.sstatus == cpu.sstatus,
        cpu_resumed.satp == user_satp,
        cpu_resumed.pc == cx_handled.sepc,
        cx_handled.sepc == cx_entered.sepc ==> cpu_resumed.pc == cpu.sepc,
{
    assert forall|i: int| is_saved(i) implies #[trigger] cpu_resumed.x[i] == cpu.x[i] by {
        assert(cpu_resumed.x[i] == cx_handled.user_x[i]);
        assert(cx_entered.user_x[i] == cpu.x[i]);
    }
}

/// The trap vector while the core runs user code: the trampoline page.
pub fn set_user_trap() -> (r: StvecUpdate)
    ensures
        r.address == TRAMPOLINE,
{
    StvecUpdate { address: TRAMPOLINE }
}

/// The trap vector while the core runs kernel code: the kernel's own entry, which lies at
/// `trap_from_kernel`.
pub fn set_kernel_trap(trap_from_kernel: usize) -> (r: StvecUpdate)
    ensures
        r.address == trap_from_kernel,
{
    StvecUpdate { address: trap_from_kernel }
}

/// What the kernel does first when a trap from user mode reaches it: from now on traps are
/// the kernel's own.
pub fn user_trap_handler(trap_from_kernel: usize) -> (r: StvecUpdate)
    ensures
        r.address == trap_from_kernel,
{
    set_kernel_trap(trap_from_kernel)
}

/// What the kernel does to go back to the user code of `cx`: from now on traps enter at the
/// trampoline, and the return path is given the user's page-table root.
pub fn user_trap_return(cx: &TrapContext) -> (r: UserReturn)
    ensures
        r.stvec.address == TRAMPOLINE,
        r.user_satp == cx.user_satp,
{
    UserReturn { stvec: set_user_trap(), user_satp: cx.load(USER_SATP_WORD) }
}

} // verus!
