use kernel::config::TRAMPOLINE;
use kernel::trap::context::TrapContext;
use kernel::trap::context::CONTEXT_WORDS;
use kernel::trap::cpu::Cpu;
use kernel::trap::init;
use kernel::trap::kernel_trap::decode_cause;
use kernel::trap::kernel_trap::kernel_trap_handler;
use kernel::trap::kernel_trap::panic_on_unknown_trap;
use kernel::trap::kernel_trap::restore_caller_saved;
use kernel::trap::kernel_trap::save_caller_saved;
use kernel::trap::kernel_trap::saved_register;
use kernel::trap::kernel_trap::trap_from_kernel;
use kernel::trap::kernel_trap::KernelFrame;
use kernel::trap::kernel_trap::KernelTrapOutcome;
use kernel::trap::kernel_trap::TrapCause;
use kernel::trap::kernel_trap::TrapReport;
use kernel::trap::user_trap::return_to_user;
use kernel::trap::user_trap::set_kernel_trap;
use kernel::trap::user_trap::set_user_trap;
use kernel::trap::user_trap::trap_from_user;
use kernel::trap::user_trap::user_trap_handler;
use kernel::trap::user_trap::user_trap_return;


const INTERRUPT: usize = 1 << (usize::BITS - 1);

fn user_state() -> Cpu {
    let mut x = [0usize; 32];
    for (i, register) in x.iter_mut().enumerate() {
        *register = 0x1111_0000 + i * 0x101;
    }
    x[0] = 0;
    Cpu { x, sstatus: 0x8000_0000_0000_6020, sepc: 0x1_0040, sscratch: 0xffff_e000, satp: 0x55, pc: 0xdead }
}

fn task_context() -> TrapContext {
    let mut cx = TrapContext::empty();
    cx.kernel_satp = 0x8000_0000_0008_0212;
    cx.kernel_sp = 0x8030_0000;
    cx.user_trap_handler = 0x8020_1234;
    cx.user_satp = 0x8000_0000_0008_0300;
    cx
}

#[test]
fn empty_context_is_all_zero() {
    let cx = TrapContext::empty();
    for index in 0..CONTEXT_WORDS {
        assert_eq!(cx.load(index), 0);
    }
    assert_eq!(cx.user_x, [0; 32]);
}

#[test]
fn context_words_lie_where_the_trap_paths_expect_them() {
    let mut cx = TrapContext::empty();
    for index in 0..CONTEXT_WORDS {
        cx.store(index, 1000 + index);
    }
    for i in 0..32 {
        assert_eq!(cx.user_x[i], 1000 + i);
    }
    assert_eq!(cx.sstatus, 1032);
    assert_eq!(cx.sepc, 1033);
    assert_eq!(cx.kernel_satp, 1034);
    assert_eq!(cx.kernel_sp, 1035);
    assert_eq!(cx.user_trap_handler, 1036);
    assert_eq!(cx.user_satp, 1037);
    for index in 0..CONTEXT_WORDS {
        assert_eq!(cx.load(index), 1000 + index);
    }
}

#[test]
fn store_writes_one_word_only() {
    let mut cx = TrapContext::empty();
    cx.store(33, 7);
    for index in 0..CONTEXT_WORDS {
        assert_eq!(cx.load(index), if index == 33 { 7 } else { 0 });
    }
}

#[test]
fn entry_saves_the_user_state_and_enters_the_kernel() {
    let user = user_state();
    let mut cpu = user;
    let mut cx = task_context();
    cx.user_x[4] = 0x44;
    trap_from_user(&mut cpu, &mut cx);
    for i in 1..32 {
        if i != 4 {
            assert_eq!(cx.user_x[i], user.x[i]);
        }
    }
    assert_eq!(cx.user_x[0], 0);
    assert_eq!(cx.user_x[4], 0x44);
    assert_eq!(cx.sstatus, user.sstatus);
    assert_eq!(cx.sepc, user.sepc);
    assert_eq!(cx.kernel_satp, 0x8000_0000_0008_0212);
    assert_eq!(cx.kernel_sp, 0x8030_0000);
    assert_eq!(cx.user_trap_handler, 0x8020_1234);
    assert_eq!(cx.user_satp, 0x8000_0000_0008_0300);
    assert_eq!(cpu.satp, 0x8000_0000_0008_0212);
    assert_eq!(cpu.x[2], 0x8030_0000);
    assert_eq!(cpu.pc, 0x8020_1234);
    assert_eq!(cpu.sscratch, user.x[2]);
    assert_eq!(cpu.x[5], 0x8000_0000_0008_0212);
    assert_eq!(cpu.x[6], 0x8020_1234);
    assert_eq!(cpu.x[7], user.x[2]);
    assert_eq!(cpu.x[4], user.x[4]);
    assert_eq!(cpu.x[31], user.x[31]);
}

#[test]
fn round_trip_restores_every_saved_register() {
    let user = user_state();
    let mut cpu = user;
    let mut cx = task_context();
    trap_from_user(&mut cpu, &mut cx);
    for register in cpu.x.iter_mut() {
        *register = 0xbad;
    }
    cpu.x[0] = 0;
    cpu.x[4] = 0x8040_0000;
    cpu.sstatus = 0;
    cpu.sepc = 0;
    let plan = user_trap_return(&cx);
    return_to_user(&mut cpu, &cx, 0xffff_e000, plan.user_satp);
    for i in 1..32 {
        if i != 4 {
            assert_eq!(cpu.x[i], user.x[i]);
        }
    }
    assert_eq!(cpu.x[0], 0);
    assert_eq!(cpu.x[4], 0x8040_0000);
    assert_eq!(cpu.sstatus, user.sstatus);
    assert_eq!(cpu.sepc, user.sepc);
    assert_eq!(cpu.pc, user.sepc);
    assert_eq!(cpu.satp, 0x8000_0000_0008_0300);
    assert_eq!(cpu.sscratch, 0xffff_e000);
}

#[test]
fn round_trip_resumes_where_the_handler_moved_the_program_counter() {
    let user = user_state();
    let mut cpu = user;
    let mut cx = task_context();
    trap_from_user(&mut cpu, &mut cx);
    cx.sepc += 4;
    return_to_user(&mut cpu, &cx, 0xffff_e000, cx.user_satp);
    assert_eq!(cpu.pc, user.sepc + 4);
    for i in 1..32 {
        if i != 4 {
            assert_eq!(cpu.x[i], user.x[i]);
        }
    }
}

#[test]
fn trap_vectors() {
    assert_eq!(set_user_trap().address, TRAMPOLINE);
    assert_eq!(set_kernel_trap(0x8020_2000).address, 0x8020_2000);
    assert_eq!(user_trap_handler(0x8020_2000).address, 0x8020_2000);
    assert_eq!(init(0x8020_2004).address, 0x8020_2004);
    let plan = user_trap_return(&task_context());
    assert_eq!(plan.stvec.address, TRAMPOLINE);
    assert_eq!(plan.user_satp, 0x8000_0000_0008_0300);
}

#[test]
fn causes() {
    assert_eq!(decode_cause(15), TrapCause::Exception(15));
    assert_eq!(decode_cause(0), TrapCause::Exception(0));
    assert_eq!(decode_cause(9), TrapCause::Exception(9));
    assert_eq!(decode_cause(12), TrapCause::Exception(12));
    assert_eq!(decode_cause(13), TrapCause::Exception(13));
    assert_eq!(decode_cause(10), TrapCause::Unknown(10));
    assert_eq!(decode_cause(11), TrapCause::Unknown(11));
    assert_eq!(decode_cause(14), TrapCause::Unknown(14));
    assert_eq!(decode_cause(16), TrapCause::Unknown(16));
    assert_eq!(decode_cause(INTERRUPT - 1), TrapCause::Unknown(INTERRUPT - 1));
    assert_eq!(decode_cause(INTERRUPT), TrapCause::Interrupt(0));
    assert_eq!(decode_cause(INTERRUPT | 5), TrapCause::Interrupt(5));
    assert_eq!(decode_cause(INTERRUPT | 15), TrapCause::Interrupt(15));
    assert_eq!(decode_cause(usize::MAX), TrapCause::Interrupt(INTERRUPT - 1));
}

#[test]
fn the_probe_fault_is_skipped() {
    assert_eq!(
        kernel_trap_handler(15, 0, 0x8020_0100, false),
        KernelTrapOutcome::Resume { sepc: 0x8020_0104 }
    );
}

#[test]
fn another_store_page_fault_goes_back_to_the_instruction() {
    assert_eq!(
        kernel_trap_handler(15, 0x4000, 0x8020_0100, true),
        KernelTrapOutcome::Resume { sepc: 0x8020_0100 }
    );
}

#[test]
fn every_other_cause_is_fatal() {
    for scause in [0usize, 2, 7, 8, 12, 13, 14, 16, INTERRUPT | 5, INTERRUPT | 15] {
        let outcome = kernel_trap_handler(scause, 0, 0x8020_0100, true);
        assert_eq!(
            outcome,
            KernelTrapOutcome::Fatal(TrapReport {
                sum: true,
                cause: decode_cause(scause),
                scause,
                stval: 0,
                sepc: 0x8020_0100,
            })
        );
        assert_eq!(outcome, panic_on_unknown_trap(true, scause, 0, 0x8020_0100));
    }
}

#[test]
fn the_report_holds_what_was_read() {
    let outcome = kernel_trap_handler(13, 0xdead_beef, 0x8020_0abc, false);
    assert_eq!(
        outcome,
        KernelTrapOutcome::Fatal(TrapReport {
            sum: false,
            cause: TrapCause::Exception(13),
            scause: 13,
            stval: 0xdead_beef,
            sepc: 0x8020_0abc,
        })
    );
}

#[test]
fn the_kernel_frame_holds_the_registers_a_function_may_change() {
    let expected = [1usize, 5, 6, 7, 28, 29, 30, 31, 10, 11, 12, 13, 14, 15, 16, 17];
    for slot in 1..17usize {
        assert_eq!(saved_register(slot), expected[slot - 1]);
    }
    let cpu = user_state();
    let mut frame = KernelFrame { words: [0xaa; 17] };
    save_caller_saved(&cpu, &mut frame);
    assert_eq!(frame.words[0], 0xaa);
    for slot in 1..17usize {
        assert_eq!(frame.words[slot], cpu.x[expected[slot - 1]]);
    }
}

#[test]
fn the_kernel_path_restores_what_the_handler_changed() {
    let before = user_state();
    let mut cpu = before;
    let mut frame = KernelFrame { words: [0; 17] };
    save_caller_saved(&cpu, &mut frame);
    for i in [1usize, 5, 6, 7, 10, 11, 12, 13, 14, 15, 16, 17, 28, 29, 30, 31] {
        cpu.x[i] = 0xbad;
    }
    cpu.sepc = before.sepc + 4;
    restore_caller_saved(&mut cpu, &frame);
    assert_eq!(cpu.x, before.x);
    assert_eq!(cpu.pc, before.sepc + 4);
    assert_eq!(cpu.sstatus, before.sstatus);
    assert_eq!(cpu.satp, before.satp);
}

#[test]
fn a_probe_fault_in_the_kernel_resumes_behind_the_probe() {
    let before = user_state();
    let mut cpu = before;
    assert_eq!(trap_from_kernel(&mut cpu, 15, 0, false), None);
    assert_eq!(cpu.x, before.x);
    assert_eq!(cpu.sepc, before.sepc + 4);
    assert_eq!(cpu.pc, before.sepc + 4);
    assert_eq!(cpu.sstatus, before.sstatus);
    assert_eq!(cpu.satp, before.satp);
    assert_eq!(cpu.sscratch, before.sscratch);
}

#[test]
fn a_fatal_trap_in_the_kernel_reports_and_changes_nothing() {
    let before = user_state();
    let mut cpu = before;
    let report = trap_from_kernel(&mut cpu, 2, 0x44, true).unwrap();
    assert_eq!(
        report,
        TrapReport { sum: true, cause: TrapCause::Exception(2), scause: 2, stval: 0x44, sepc: before.sepc }
    );
    assert_eq!(cpu.x, before.x);
    assert_eq!(cpu.pc, before.pc);
    assert_eq!(cpu.sepc, before.sepc);
}
