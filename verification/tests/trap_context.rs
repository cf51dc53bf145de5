use rcore_os::mm::{FrameAllocator, MemorySet};
use rcore_os::task::{current_trap_cx, TaskControlBlock, TaskManager};
use rcore_os::trap::{TrapContext, NUM_REGS};

#[test]
fn app_init_context_sets_entry_stack_and_user_mode() {
    let cx = TrapContext::app_init_context(0x1000, 0x8000, 0x8000_0000_0000_0122, 0x99, 0x77, 0x55);
    assert_eq!(cx.x.len(), NUM_REGS);
    assert_eq!(cx.x[2], 0x8000);
    assert!(cx.x.iter().enumerate().all(|(i, r)| i == 2 || *r == 0));
    assert_eq!(cx.sepc, 0x1000);
    assert_eq!(cx.sstatus, 0x8000_0000_0000_0022);
    assert_eq!(cx.kernel_satp, 0x99);
    assert_eq!(cx.kernel_sp, 0x77);
    assert_eq!(cx.trap_handler, 0x55);
}

#[test]
fn current_trap_cx_changes_the_current_task_in_place() {
    let mk = || TrapContext::app_init_context(0x1000, 0x8000, 0, 0, 0, 0);
    let mut tm = TaskManager::new(vec![
        TaskControlBlock::new(MemorySet::new(1), 0, mk()),
        TaskControlBlock::new(MemorySet::new(2), 0, mk()),
    ], FrameAllocator::new(0x80400, 0x88000));
    tm.current_task = 1;
    {
        let cx = current_trap_cx(&mut tm);
        assert_eq!(cx.sepc, 0x1000);
        cx.sepc += 4;
        cx.x[10] = 7;
    }
    assert_eq!(tm.tasks[1].trap_cx.sepc, 0x1004);
    assert_eq!(tm.tasks[1].trap_cx.x[10], 7);
    assert_eq!(tm.tasks[0].trap_cx.sepc, 0x1000);
}
