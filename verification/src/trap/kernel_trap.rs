//! Traps taken in kernel mode.

use crate::trap::cpu::Cpu;
use crate::trap::cpu::REGISTER_COUNT;
use riscv::interrupt::supervisor::Exception;
use riscv::ExceptionNumber;
use vstd::prelude::*;

verus! {

/// Number of the exception that a store to an unmapped page raises.
pub const STORE_PAGE_FAULT: usize = 15;

/// Length in bytes of the instruction that the kernel probes memory with.
pub const PROBE_INSTRUCTION_BYTES: usize = 4;

/// Whether `code` is the number of one of the standard supervisor exceptions.
pub open spec fn is_standard_exception(code: usize) -> bool {
    code <= 9 || code == 12 || code == 13 || code == 15
}

/// `ExceptionNumber::from_number` for `riscv::interrupt::supervisor::Exception`, followed by
/// `ExceptionNumber::number`: the code itself when it is that of a standard exception.
#[verifier::external_body]
fn standard_exception(code: usize) -> (r: Option<usize>)
    ensures
        r == if is_standard_exception(code) {
            Some(code)
        } else {
            None
        },
{
    match Exception::from_number(code) {
        Ok(exception) => Some(exception.number()),
        Err(_) => None,
    }
}

/// Why the processor trapped.
#[derive(Clone, Copy, Debug, PartialEq, Eq, Structural)]
pub enum TrapCause {
    /// An interrupt, with its number.
    Interrupt(usize),
    /// A standard exception, with its number.
    Exception(usize),
    /// An exception whose number is not a standard one.
    Unknown(usize),
}

/// What the kernel reports before it stops on a trap it cannot handle.
#[derive(Clone, Copy, Debug, PartialEq, Eq, Structural)]
pub struct TrapReport {
    /// Whether supervisor access to user memory was enabled.
    pub sum: bool,
    pub cause: TrapCause,
    /// The cause register as it was read.
    pub scause: usize,
    /// The faulting address.
    pub stval: usize,
    /// The address of the faulting instruction.
    pub sepc: usize,
}

/// What to do after a trap taken in kernel mode.
#[derive(Clone, Copy, Debug, PartialEq, Eq, Structural)]
pub enum KernelTrapOutcome {
    /// Return from the trap to the instruction at `sepc`.
    Resume { sepc: usize },
    /// Stop the kernel with this report.
    Fatal(TrapReport),
}

/// The value of the cause register's top bit, which tells interrupts from exceptions.
pub open spec fn interrupt_bit() -> int {
    usize::MAX / 2 + 1
}

/// The cause that the cause register `scause` stands for.
pub open spec fn spec_decode_cause(scause: usize) -> TrapCause {
    if scause >= interrupt_bit() {
        TrapCause::Interrupt((scause - interrupt_bit()) as usize)
    } else if is_standard_exception(scause) {
        TrapCause::Exception(scause)
    } else {
        TrapCause::Unknown(scause)
    }
}

/// Decodes the cause register.
pub fn decode_cause(scause: usize) -> (r: TrapCause)
    ensures
        r == spec_decode_cause(scause),
{
    let top: usize = usize::MAX / 2 + 1;
    if scause >= top {
        TrapCause::Interrupt(scause - top)
    } else {
        match standard_exception(scause) {
            Some(code) => TrapCause::Exception(code),
            None => TrapCause::Unknown(scause),
        }
    }
}

/// What [`kernel_trap_handler`] decides.
pub open spec fn spec_kernel_trap_handler(scause: usize, stval: usize, sepc: usize, sum: bool) -> KernelTrapOutcome {
    if spec_decode_cause(scause) == TrapCause::Exception(STORE_PAGE_FAULT) {
        if stval == 0 {
            KernelTrapOutcome::Resume { sepc: (sepc + PROBE_INSTRUCTION_BYTES) as usize }
        } else {
            KernelTrapOutcome::Resume { sepc }
        }
    } else {
        KernelTrapOutcome::Fatal(
            TrapReport { sum, cause: spec_decode_cause(scause), scause, stval, sepc },
        )
    }
}

/// Decides what to do after a trap taken in kernel mode, from the cause register, the
/// faulting address, the address of the faulting instruction and the state of the
/// user-memory-access flag.
///
/// A store page fault at address 0 is the kernel's own probe: execution goes on behind the
/// probing instruction. Any other store page fault goes back to the instruction that
/// faulted. Every other cause is fatal.
pub fn kernel_trap_handler(scause: usize, stval: usize, sepc: usize, sum: bool) -> (r:
    KernelTrapOutcome)
    requires
        sepc + PROBE_INSTRUCTION_BYTES <= usize::MAX,
    ensures
        r == spec_kernel_trap_handler(scause, stval, sepc, sum),
{
    let cause = decode_cause(scause);
    match cause {
        TrapCause::Exception(code) => {
            if code == STORE_PAGE_FAULT {
                if stval == 0 {
                    KernelTrapOutcome::Resume { sepc: sepc + PROBE_INSTRUCTION_BYTES }
                } else {
                    KernelTrapOutcome::Resume { sepc }
                }
            } else {
                panic_on_unknown_trap(sum, scause, stval, sepc)
            }
        },
        _ => panic_on_unknown_trap(sum, scause, stval, sepc),
    }
}

/// The outcome for a trap that the kernel cannot handle: fatal, with everything that is known
/// of the trap.
pub fn panic_on_unknown_trap(sum: bool, scause: usize, stval: usize, sepc: usize) -> (r:
    KernelTrapOutcome)
    ensures
        r == KernelTrapOutcome::Fatal(
            TrapReport { sum, cause: spec_decode_cause(scause), scause, stval, sepc },
        ),
{
    KernelTrapOutcome::Fatal(TrapReport { sum, cause: decode_cause(scause), scause, stval, sepc })
}

/// Number of words that the kernel's trap entry takes on the stack: one for each register it
/// saves, behind one that it leaves unused.
pub const KERNEL_FRAME_WORDS: usize = 17;

/// The part of the stack that the kernel's trap entry saves registers in.
#[derive(Debug, Clone, Copy)]
pub struct KernelFrame {
    pub words: [usize; 17],
}

/// The register that is saved in word `slot` of a [`KernelFrame`]: the return address, the
/// seven temporaries and the eight argument registers, in that order from word 1 on.
pub open spec fn spec_saved_register(slot: int) -> int {
    if slot == 1 {
        1
    } else if slot <= 4 {
        slot + 3
    } else if slot <= 8 {
        slot + 23
    } else {
        slot + 1
    }
}

/// Whether register `i` is one that a called function may change: the registers that
/// [`spec_saved_register`] lists.
pub open spec fn is_caller_saved(i: int) -> bool {
    i == 1 || 5 <= i <= 7 || 10 <= i <= 17 || 28 <= i <= 31
}

/// The register that is saved in word `slot` of a [`KernelFrame`].
pub fn saved_register(slot: usize) -> (r: usize)
    requires
        1 <= slot < KERNEL_FRAME_WORDS,
    ensures
        r == spec_saved_register(slot as int),
        is_caller_saved(r as int),
        r < REGISTER_COUNT,
{
    if slot == 1 {
        1
    } else if slot <= 4 {
        slot + 3
    } else if slot <= 8 {
        slot + 23
    } else {
        slot + 1
    }
}

/// Every register that a called function may change has a word in the frame.
pub proof fn lemma_caller_saved_covered(i: int)
    requires
        is_caller_saved(i),
    ensures
        exists|slot: int| 1 <= slot < KERNEL_FRAME_WORDS && #[trigger] spec_saved_register(slot) == i,
{
    let slot = if i == 1 {
        1
    } else if i <= 7 {
        i - 3
    } else if i <= 17 {
        i - 1
    } else {
        i - 23
    };
    assert(spec_saved_register(slot) == i);
}

/// What the kernel's trap entry does before it calls the handler: every register that the
/// handler may change is in its word of the frame.
pub fn save_caller_saved(cpu: &Cpu, frame: &mut KernelFrame)
    ensures
        forall|slot: int|
            1 <= slot < KERNEL_FRAME_WORDS ==> final(frame).words[slot]
                == cpu.x[#[trigger] spec_saved_register(slot)],
        final(frame).words[0] == old(frame).words[0],
{
    let mut slot: usize = 1;
    while slot < KERNEL_FRAME_WORDS
        invariant
            1 <= slot <= KERNEL_FRAME_WORDS,
            forall|k: int|
                1 <= k < slot ==> frame.words[k] == cpu.x[#[trigger] spec_saved_register(k)],
            frame.words[0] == old(frame).words[0],
        decreases KERNEL_FRAME_WORDS - slot,
    {
        frame.words[slot] = cpu.x[saved_register(slot)];
        slot = slot + 1;
    }
}

/// What the kernel's trap entry does after the handler has returned: every register that has
/// a word in the frame holds that word, the others are as they were, and execution goes on at
/// the saved program counter.
pub fn restore_caller_saved(cpu: &mut Cpu, frame: &KernelFrame)
    ensures
        forall|slot: int|
            1 <= slot < KERNEL_FRAME_WORDS ==> final(cpu).x[#[trigger] spec_saved_register(slot)]
                == frame.words[slot],
        forall|i: int|
            0 <= i < REGISTER_COUNT && !is_caller_saved(i) ==> #[trigger] final(cpu).x[i] == old(
                cpu,
            ).x[i],
        final(cpu).pc == old(cpu).sepc,
        final(cpu).sepc == old(cpu).sepc,
        final(cpu).sstatus == old(cpu).sstatus,
        final(cpu).sscratch == old(cpu).sscratch,
        final(cpu).satp == old(cpu).satp,
{
    let mut slot: usize = 1;
    while slot < KERNEL_FRAME_WORDS
        invariant
            1 <= slot <= KERNEL_FRAME_WORDS,
            forall|k: int|
                1 <= k < slot ==> cpu.x[#[trigger] spec_saved_register(k)] == frame.words[k],
            forall|i: int|
                0 <= i < REGISTER_COUNT && !is_caller_saved(i) ==> #[trigger] cpu.x[i] == old(
                    cpu,
                ).x[i],
            cpu.sepc == old(cpu).sepc,
            cpu.sstatus == old(cpu).sstatus,
            cpu.sscratch == old(cpu).sscratch,
            cpu.satp == old(cpu).satp,
        decreases KERNEL_FRAME_WORDS - slot,
    {
        let register = saved_register(slot);
        cpu.x[register] = frame.words[slot];
        proof {
            assert forall|k: int| 1 <= k < slot + 1 implies cpu.x[#[trigger] spec_saved_register(k)]
                == frame.words[k] by {
                if k < slot {
                    assert(spec_saved_register(k) != register);
                }
            }
        }
        slot = slot + 1;
    }
    cpu.pc = cpu.sepc;
}

/// A trap taken in kernel mode that the handler lets return leaves every general register as
/// it was when the trap was taken, whatever the handler did to the registers that a called
/// function may change; execution goes on at the program counter that the handler left.
///
/// `cpu_handled` is the core when the handler returns: a called function leaves the other
/// registers as they are.
pub proof fn lemma_kernel_trap_round_trip(
    cpu: Cpu,
    frame: KernelFrame,
    cpu_handled: Cpu,
    cpu_resumed: Cpu,
)
    requires
        forall|slot: int|
            1 <= slot < KERNEL_FRAME_WORDS ==> frame.words[slot]
                == cpu.x[#[trigger] spec_saved_register(slot)],
        forall|i: int|
            0 <= i < REGISTER_COUNT && !is_caller_saved(i) ==> #[trigger] cpu_handled.x[i]
                == cpu.x[i],
        forall|slot: int|
            1 <= slot < KERNEL_FRAME_WORDS ==> cpu_resumed.x[#[trigger] spec_saved_register(slot)]
                == frame.words[slot],
        forall|i: int|
            0 <= i < REGISTER_COUNT && !is_caller_saved(i) ==> #[trigger] cpu_resumed.x[i]
                == cpu_handled.x[i],
        cpu_resumed.pc == cpu_handled.sepc,
    ensures
        forall|i: int| 0 <= i < REGISTER_COUNT ==> #[trigger] cpu_resumed.x[i] == cpu.x[i],
        cpu_resumed.pc == cpu_handled.sepc,
{
    assert forall|i: int| 0 <= i < REGISTER_COUNT implies #[trigger] cpu_resumed.x[i]
        == cpu.x[i] by {
        if is_caller_saved(i) {
            lemma_caller_saved_covered(i);
            let slot = choose|slot: int|
                1 <= slot < KERNEL_FRAME_WORDS && #[trigger] spec_saved_register(slot) == i;
            assert(cpu_resumed.x[spec_saved_register(slot)] == frame.words[slot]);
        }
    }
}

/// The whole of a trap taken in kernel mode: the registers that the handler may change are
/// saved, the handler decides, and if it lets the trap return the program counter it chose
/// is installed and the registers are restored. A fatal trap returns its report and leaves
/// the core as it is.
pub fn trap_from_kernel(cpu: &mut Cpu, scause: usize, stval: usize, sum: bool) -> (r: Option<
    TrapReport,
>)
    requires
        old(cpu).sepc + PROBE_INSTRUCTION_BYTES <= usize::MAX,
    ensures
        match spec_kernel_trap_handler(scause, stval, old(cpu).sepc, sum) {
            KernelTrapOutcome::Resume { sepc } => {
                &&& r is None
                &&& final(cpu).x == old(cpu).x
                &&& final(cpu).pc == sepc
                &&& final(cpu).sepc == sepc
                &&& final(cpu).sstatus == old(cpu).sstatus
                &&& final(cpu).sscratch == old(cpu).sscratch
                &&& final(cpu).satp == old(cpu).satp
            },
            KernelTrapOutcome::Fatal(report) => r == Some(report) && *final(cpu) == *old(cpu),
        },
{
    let mut frame = KernelFrame { words: [0; 17] };
    save_caller_saved(cpu, &mut frame);
    match kernel_trap_handler(scause, stval, cpu.sepc, sum) {
        KernelTrapOutcome::Resume { sepc } => {
            cpu.sepc = sepc;
            restore_caller_saved(cpu, &frame);
            proof {
                assert forall|i: int| 0 <= i < REGISTER_COUNT implies cpu.x[i] == old(
                    cpu,
                ).x[i] by {
                    if is_caller_saved(i) {
                        lemma_caller_saved_covered(i);
                        let slot = choose|slot: int|
                            1 <= slot < KERNEL_FRAME_WORDS && #[trigger] spec_saved_register(slot)
                                == i;
                        assert(cpu.x[spec_saved_register(slot)] == frame.words[slot]);
                    }
                }
                assert(cpu.x@ =~= old(cpu).x@);
            }
            None
        },
        KernelTrapOutcome::Fatal(report) => Some(report),
    }
}

} // verus!
