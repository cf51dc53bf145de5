use rcore_os::config::MAX_SYSCALL_NUM;
use rcore_os::mm::{FrameAllocator, MemorySet};
use rcore_os::syscall::process::{sys_exit, sys_yield};
use rcore_os::task::{
    count_syscall, exit_current_and_run_next, get_run_time, get_task_syscall_times,
    run_first_task, suspend_current_and_run_next, TaskControlBlock, TaskManager, TaskStatus,
};
use rcore_os::trap::TrapContext;

fn manager(n: usize) -> TaskManager {
    let mut tasks = Vec::new();
    for i in 0..n {
        let cx = TrapContext::app_init_context(0x1000, 0x20000, 0x122, 0, 0, 0);
        tasks.push(TaskControlBlock::new(MemorySet::new(0x100 + i), 0x20000, cx));
    }
    TaskManager::new(tasks, FrameAllocator::new(0x80400, 0x88000))
}

fn statuses(tm: &TaskManager) -> Vec<TaskStatus> {
    tm.tasks.iter().map(|t| t.task_status).collect()
}

#[test]
fn new_manager_starts_at_task_zero_all_ready() {
    let tm = manager(3);
    assert_eq!(tm.num_app, 3);
    assert_eq!(tm.current_task, 0);
    assert_eq!(statuses(&tm), vec![TaskStatus::Ready; 3]);
    assert!(tm.tasks.iter().all(|t| t.first_lauch_time.is_none()));
    assert!(tm.tasks.iter().all(|t| t.syscall_times.len() == MAX_SYSCALL_NUM));
}

#[test]
fn run_first_task_marks_task_zero_running_with_launch_time() {
    let mut tm = manager(3);
    run_first_task(&mut tm, 42);
    assert_eq!(tm.tasks[0].task_status, TaskStatus::Running);
    assert_eq!(tm.tasks[0].first_lauch_time, Some(42));
    assert_eq!(tm.tasks[1].task_status, TaskStatus::Ready);
    assert_eq!(tm.current_task, 0);
}

#[test]
fn find_next_task_picks_first_ready_after_current() {
    let mut tm = manager(4);
    tm.tasks[0].task_status = TaskStatus::Running;
    tm.tasks[1].task_status = TaskStatus::Exited;
    assert_eq!(tm.find_next_task(), Some(2));
}

#[test]
fn find_next_task_wraps_around() {
    let mut tm = manager(4);
    tm.current_task = 2;
    tm.tasks[2].task_status = TaskStatus::Running;
    tm.tasks[3].task_status = TaskStatus::Exited;
    assert_eq!(tm.find_next_task(), Some(0));
}

#[test]
fn find_next_task_takes_current_last() {
    let mut tm = manager(3);
    tm.current_task = 1;
    tm.tasks[0].task_status = TaskStatus::Exited;
    tm.tasks[2].task_status = TaskStatus::Exited;
    assert_eq!(tm.find_next_task(), Some(1));
}

#[test]
fn find_next_task_none_when_nothing_ready() {
    let mut tm = manager(3);
    tm.tasks[0].task_status = TaskStatus::Running;
    tm.tasks[1].task_status = TaskStatus::Exited;
    tm.tasks[2].task_status = TaskStatus::UnInit;
    assert_eq!(tm.find_next_task(), None);
}

#[test]
fn suspend_runs_next_and_records_first_launch_only_once() {
    let mut tm = manager(2);
    run_first_task(&mut tm, 10);
    assert_eq!(suspend_current_and_run_next(&mut tm, 20), 1);
    assert_eq!(tm.current_task, 1);
    assert_eq!(statuses(&tm), vec![TaskStatus::Ready, TaskStatus::Running]);
    assert_eq!(tm.tasks[1].first_lauch_time, Some(20));
    assert_eq!(suspend_current_and_run_next(&mut tm, 30), 0);
    assert_eq!(tm.tasks[0].first_lauch_time, Some(10));
    assert_eq!(statuses(&tm), vec![TaskStatus::Running, TaskStatus::Ready]);
}

#[test]
fn yield_with_a_single_task_resumes_it() {
    let mut tm = manager(1);
    run_first_task(&mut tm, 5);
    assert_eq!(sys_yield(&mut tm, 6), 0);
    assert_eq!(tm.current_task, 0);
    assert_eq!(tm.tasks[0].task_status, TaskStatus::Running);
    assert_eq!(tm.tasks[0].first_lauch_time, Some(5));
}

#[test]
fn exit_runs_next_until_all_complete() {
    let mut tm = manager(2);
    run_first_task(&mut tm, 0);
    assert_eq!(sys_exit(&mut tm, 0, 1), 1);
    assert_eq!(statuses(&tm), vec![TaskStatus::Exited, TaskStatus::Running]);
    assert_eq!(tm.current_task, 1);
    // no other task is ready: the last exit finds nothing to run
    assert_eq!(tm.find_next_task(), None);
}

#[test]
fn exited_task_is_never_picked_again() {
    let mut tm = manager(3);
    run_first_task(&mut tm, 0);
    assert_eq!(exit_current_and_run_next(&mut tm, 1), 1);
    for t in 2..10 {
        let next = suspend_current_and_run_next(&mut tm, t);
        assert_ne!(next, 0);
        assert_eq!(tm.tasks[0].task_status, TaskStatus::Exited);
        let running = statuses(&tm).iter().filter(|s| **s == TaskStatus::Running).count();
        assert_eq!(running, 1);
    }
}

#[test]
fn count_syscall_counts_current_task_only() {
    let mut tm = manager(2);
    count_syscall(&mut tm, 64);
    count_syscall(&mut tm, 64);
    count_syscall(&mut tm, 93);
    let times = get_task_syscall_times(&tm);
    assert_eq!(times.len(), MAX_SYSCALL_NUM);
    assert_eq!(times[64], 2);
    assert_eq!(times[93], 1);
    assert_eq!(times.iter().map(|c| *c as u64).sum::<u64>(), 3);
    assert!(tm.tasks[1].syscall_times.iter().all(|c| *c == 0));
}

#[test]
fn count_syscall_ignores_ids_out_of_range() {
    let mut tm = manager(1);
    count_syscall(&mut tm, MAX_SYSCALL_NUM);
    count_syscall(&mut tm, usize::MAX);
    assert!(get_task_syscall_times(&tm).iter().all(|c| *c == 0));
}

#[test]
fn count_syscall_wraps_at_u32_max() {
    let mut tm = manager(1);
    tm.tasks[0].syscall_times[7] = u32::MAX;
    count_syscall(&mut tm, 7);
    assert_eq!(get_task_syscall_times(&tm)[7], 0);
}

#[test]
fn running_time_is_time_since_first_launch() {
    let mut tm = manager(2);
    assert_eq!(get_run_time(&tm, 100), 0);
    run_first_task(&mut tm, 100);
    assert_eq!(get_run_time(&tm, 100), 0);
    assert_eq!(get_run_time(&tm, 1234), 1134);
}

#[test]
fn only_the_first_task_runs_after_start() {
    let mut tm = manager(3);
    run_first_task(&mut tm, 1);
    assert_eq!(statuses(&tm), vec![TaskStatus::Running, TaskStatus::Ready, TaskStatus::Ready]);
}

#[test]
fn yielded_task_resumes_with_its_launch_time() {
    let mut tm = manager(2);
    run_first_task(&mut tm, 3);
    assert_eq!(suspend_current_and_run_next(&mut tm, 8), 1);
    assert_eq!(suspend_current_and_run_next(&mut tm, 9), 0);
    assert_eq!(tm.current_task, 0);
    assert_eq!(tm.tasks[0].task_status, TaskStatus::Running);
    assert_eq!(tm.tasks[0].first_lauch_time, Some(3));
    assert_eq!(tm.tasks[1].first_lauch_time, Some(8));
}

#[test]
fn counts_are_the_calls_made() {
    let mut tm = manager(1);
    let calls = [64usize, 64, 169, 64, 410, 999, 169];
    for id in calls {
        count_syscall(&mut tm, id);
    }
    let times = get_task_syscall_times(&tm);
    assert_eq!(times[64], 3);
    assert_eq!(times[169], 2);
    assert_eq!(times[410], 1);
    assert_eq!(times.iter().map(|c| *c as u64).sum::<u64>(), 6);
}
