use kernel::allocator::frame::PhysFrameAllocator;
use kernel::allocator::recycle::RecycleAllocator;
use kernel::config::KERNEL_STACK_SIZE;
use kernel::config::MAX_HARTS;
use kernel::config::TRAMPOLINE;
use kernel::hart::init;
use kernel::hart::Hart;
use kernel::hart::HartTable;
use kernel::logging::console::console_putstr;
use kernel::mem::addr::PhysAddr;
use kernel::mem::space::AddrSpace;
use kernel::runtime::executor::init_executor;
use kernel::runtime::executor::Executor;
use kernel::task::idle::IdleTask;
use kernel::task::manager::TaskManager;
use kernel::task::task::Task;
use kernel::task::tid::alloc_tid;
use std::sync::Arc;

fn task(ids: &mut RecycleAllocator, user_satp: usize) -> Task {
    let mut task = Task::new(alloc_tid(ids), AddrSpace::empty());
    task.trap_context_mut().user_satp = user_satp;
    task
}

#[test]
fn constants() {
    assert_eq!(MAX_HARTS, 8);
    assert_eq!(KERNEL_STACK_SIZE, 2 * 1024 * 1024);
    assert_eq!(TRAMPOLINE, usize::MAX - 0xfff);
}

#[test]
fn empty_record() {
    let hart = Hart::empty();
    assert_eq!(hart.hart_id(), 0);
    assert!(!hart.is_claimed());
    assert!(hart.task().is_none());
}

#[test]
fn a_core_claims_its_record_once() {
    let mut table = HartTable::new();
    for id in 0..MAX_HARTS {
        assert!(!table.local_hart(id).is_claimed());
    }
    assert!(table.set_local_hart(3));
    assert!(table.local_hart(3).is_claimed());
    assert_eq!(table.local_hart(3).hart_id(), 3);
    assert!(!table.local_hart(2).is_claimed());
    assert!(!table.set_local_hart(3));
    assert!(init(&mut table, 0));
    assert!(!init(&mut table, 0));
    assert!(table.local_hart(0).is_claimed());
}

#[test]
fn there_is_no_record_past_the_last_core() {
    let mut table = HartTable::new();
    assert!(!table.set_local_hart(MAX_HARTS));
    assert!(!table.set_local_hart(usize::MAX));
    assert!(table.set_local_hart(MAX_HARTS - 1));
}

#[test]
fn a_new_task_has_zeroed_registers() {
    let mut ids = RecycleAllocator::new(1);
    let task = Task::new(alloc_tid(&mut ids), AddrSpace::empty());
    assert_eq!(task.tid(), 1);
    assert_eq!(task.trap_context().user_x, [0; 32]);
    assert_eq!(task.trap_context().sepc, 0);
    assert_eq!(task.trap_context().user_satp, 0);
    assert_eq!(task.space().page_table().root_paddr(), PhysAddr::new(usize::MAX));
}

#[test]
fn a_task_keeps_its_address_space() {
    let mut frames = PhysFrameAllocator::new();
    assert!(frames.init(PhysAddr::new(0x8020_0000), 0x4000));
    let mut ids = RecycleAllocator::new(1);
    let space = AddrSpace::new(&mut frames).unwrap();
    let root = space.page_table().root_paddr();
    let mut task = Task::new(alloc_tid(&mut ids), space);
    task.trap_context_mut().sepc = 0x1_0000;
    assert_eq!(task.space().page_table().root_paddr(), root);
    assert_eq!(task.trap_context().sepc, 0x1_0000);
    assert_eq!(task.tid(), 1);
}

#[test]
fn executor_hands_tasks_out_in_the_order_they_came() {
    let mut ids = RecycleAllocator::new(1);
    let mut executor = init_executor();
    assert!(executor.fetch().is_none());
    executor.add(Box::new(task(&mut ids, 10)));
    executor.add(Box::new(task(&mut ids, 20)));
    executor.add(Box::new(task(&mut ids, 30)));
    assert_eq!(executor.fetch().unwrap().tid(), 1);
    executor.add(Box::new(task(&mut ids, 40)));
    assert_eq!(executor.fetch().unwrap().tid(), 2);
    assert_eq!(executor.fetch().unwrap().tid(), 3);
    assert_eq!(executor.fetch().unwrap().tid(), 4);
    assert!(executor.fetch().is_none());
}

#[test]
fn task_manager_hands_tasks_out_in_the_order_they_came() {
    let mut ids = RecycleAllocator::new(1);
    let mut manager = TaskManager::new();
    assert!(manager.fetch().is_none());
    manager.add(Arc::new(task(&mut ids, 0)));
    manager.add(Arc::new(task(&mut ids, 0)));
    assert_eq!(manager.fetch().unwrap().tid(), 1);
    assert_eq!(manager.fetch().unwrap().tid(), 2);
    assert!(manager.fetch().is_none());
}

#[test]
fn run_task_puts_the_task_on_the_core() {
    let mut ids = RecycleAllocator::new(1);
    let mut table = HartTable::new();
    assert!(table.set_local_hart(1));
    let plan = table.run_task(1, Box::new(task(&mut ids, 0x8000_0000_0008_0300)));
    assert_eq!(plan.stvec.address, TRAMPOLINE);
    assert_eq!(plan.user_satp, 0x8000_0000_0008_0300);
    assert_eq!(table.local_hart(1).task().as_ref().unwrap().tid(), 1);
    assert!(table.local_hart(0).task().is_none());
    assert!(table.local_hart(1).is_claimed());
}

#[test]
fn run_first_takes_the_task_that_is_ready_longest() {
    let mut ids = RecycleAllocator::new(1);
    let mut table = HartTable::new();
    let mut executor = Executor::new();
    assert!(table.run_first(0, &mut executor).is_none());
    assert!(table.local_hart(0).task().is_none());
    executor.add(Box::new(task(&mut ids, 0x111)));
    executor.add(Box::new(task(&mut ids, 0x222)));
    let plan = table.run_first(0, &mut executor).unwrap();
    assert_eq!(plan.user_satp, 0x111);
    assert_eq!(table.local_hart(0).task().as_ref().unwrap().tid(), 1);
    let plan = table.run_first(5, &mut executor).unwrap();
    assert_eq!(plan.user_satp, 0x222);
    assert_eq!(table.local_hart(5).task().as_ref().unwrap().tid(), 2);
    assert!(table.run_first(5, &mut executor).is_none());
    assert_eq!(table.local_hart(5).task().as_ref().unwrap().tid(), 2);
}

#[test]
fn the_idle_task_never_finishes() {
    let idle = IdleTask::new();
    assert!(!idle.poll());
    assert!(!idle.poll());
}

#[test]
fn console_gets_the_code_of_each_character() {
    assert_eq!(console_putstr(""), Vec::<usize>::new());
    assert_eq!(console_putstr("ok\n"), vec![0x6f, 0x6b, 0x0a]);
    assert_eq!(console_putstr("é€"), vec![0xe9, 0x20ac]);
}
