use rcore_os::config::{MEMORY_END, PAGE_SIZE};
use rcore_os::mm::{
    FrameAllocator, MapPermission, MemorySet, PageTableEntry, VirtPageNum, PTE_R, PTE_U, PTE_V, PTE_W, PTE_X,
};
use rcore_os::syscall::process::{
    sys_get_time, sys_mmap, sys_munmap, sys_sbrk, sys_task_info, TASK_INFO_SIZE, TIME_VAL_SIZE,
};
use rcore_os::task::{
    count_syscall, get_vpn_pte, run_first_task, TaskControlBlock, TaskManager,
};
use rcore_os::trap::TrapContext;

const HEAP: usize = 0x20000;

/// The first frame that the tests' allocator hands out.
const FIRST_FRAME: usize = 0x80400;

fn one_task() -> TaskManager {
    let mut fa = FrameAllocator::new(FIRST_FRAME, 0x88000);
    let mut ms = MemorySet::new(0x80);
    // user data pages 1 and 2: frames FIRST_FRAME and FIRST_FRAME + 3, the
    // level-1 and leaf tables of page 1 in between
    ms.map_range(&mut fa, VirtPageNum(1), VirtPageNum(3), MapPermission { bits: PTE_R | PTE_W | PTE_U });
    let cx = TrapContext::app_init_context(0x1000, HEAP, 0, 0, 0, 0);
    TaskManager::new(vec![TaskControlBlock::new(ms, HEAP, cx)], fa)
}

fn read(tm: &TaskManager, va: usize, len: usize) -> Vec<u8> {
    tm.tasks[tm.current_task].memory_set.read_bytes(va, len)
}

fn pte(tm: &TaskManager, vpn: usize) -> Option<PageTableEntry> {
    get_vpn_pte(tm, VirtPageNum(vpn))
}

#[test]
fn get_time_writes_seconds_and_microseconds() {
    let mut tm = one_task();
    let ts = PAGE_SIZE + 0x10;
    assert_eq!(sys_get_time(&mut tm, ts, 0, 3_500_001), 0);
    let bytes = read(&tm, ts, TIME_VAL_SIZE);
    assert_eq!(&bytes[..8], &3u64.to_le_bytes());
    assert_eq!(&bytes[8..], &500_001u64.to_le_bytes());
}

#[test]
fn get_time_value_split_over_two_pages() {
    let mut tm = one_task();
    let ts = 2 * PAGE_SIZE - 12;
    let us = 123_456_789_012usize;
    assert_eq!(sys_get_time(&mut tm, ts, 0, us), 0);
    let bytes = read(&tm, ts, TIME_VAL_SIZE);
    let sec = u64::from_le_bytes(bytes[..8].try_into().unwrap());
    let usec = u64::from_le_bytes(bytes[8..].try_into().unwrap());
    assert_eq!(sec, 123_456);
    assert_eq!(usec, 789_012);
    assert_eq!(sec * 1_000_000 + usec, us as u64);
}

#[test]
fn task_info_refused_before_any_time_passed() {
    let mut tm = one_task();
    run_first_task(&mut tm, 50);
    assert_eq!(sys_task_info(&mut tm, PAGE_SIZE, 50), -1);
    assert_eq!(read(&tm, PAGE_SIZE, 8), vec![0; 8]);
    let mut never_run = one_task();
    assert_eq!(sys_task_info(&mut never_run, PAGE_SIZE, 50), -1);
}

#[test]
fn task_info_layout() {
    let mut tm = one_task();
    run_first_task(&mut tm, 1000);
    count_syscall(&mut tm, 169);
    count_syscall(&mut tm, 410);
    count_syscall(&mut tm, 410);
    let ti = PAGE_SIZE + 8;
    assert_eq!(sys_task_info(&mut tm, ti, 1250), 0);
    let bytes = read(&tm, ti, TASK_INFO_SIZE);
    assert_eq!(&bytes[0..4], &[2, 0, 0, 0]);
    let count = |id: usize| u32::from_le_bytes(bytes[4 + 4 * id..8 + 4 * id].try_into().unwrap());
    assert_eq!(count(169), 1);
    assert_eq!(count(410), 2);
    assert_eq!(count(0), 0);
    assert_eq!(&bytes[2004..2008], &[0, 0, 0, 0]);
    assert_eq!(&bytes[2008..2016], &250u64.to_le_bytes());
}

#[test]
fn mmap_maps_fresh_user_pages_with_the_protection() {
    let mut tm = one_task();
    let start = 0x1000_0000;
    assert_eq!(sys_mmap(&mut tm, start, 2 * PAGE_SIZE + 1, 3), 0);
    let vpn = start / PAGE_SIZE;
    let f = PTE_V | PTE_R | PTE_W | PTE_U;
    // the first page takes a frame, then its new leaf table takes one
    assert_eq!(pte(&tm, vpn), Some(PageTableEntry::new(FIRST_FRAME + 4, f)));
    assert_eq!(pte(&tm, vpn + 1), Some(PageTableEntry::new(FIRST_FRAME + 6, f)));
    assert_eq!(pte(&tm, vpn + 2), Some(PageTableEntry::new(FIRST_FRAME + 7, f)));
    assert_eq!(pte(&tm, vpn + 2).unwrap().ppn(), FIRST_FRAME + 7);
    // the next page shares the leaf table: its entry is empty
    assert_eq!(pte(&tm, vpn + 3), Some(PageTableEntry::empty()));
    assert_eq!(read(&tm, start, 16), vec![0; 16]);
}

#[test]
fn mmap_execute_only() {
    let mut tm = one_task();
    assert_eq!(sys_mmap(&mut tm, 0x4000_0000, PAGE_SIZE, 4), 0);
    // a page under a new level-1 table: its frame, then two table frames
    assert_eq!(
        pte(&tm, 0x4000_0000 / PAGE_SIZE),
        Some(PageTableEntry::new(FIRST_FRAME + 4, PTE_V | PTE_X | PTE_U))
    );
    assert_eq!(tm.frame_allocator.current, FIRST_FRAME + 7);
}

#[test]
fn mmap_refuses_bad_arguments() {
    let mut tm = one_task();
    assert_eq!(sys_mmap(&mut tm, 0x1000_0001, PAGE_SIZE, 1), -1);
    assert_eq!(sys_mmap(&mut tm, 0x1000_0000, PAGE_SIZE, 0), -1);
    assert_eq!(sys_mmap(&mut tm, 0x1000_0000, PAGE_SIZE, 8), -1);
    assert_eq!(sys_mmap(&mut tm, 0x1000_0000, PAGE_SIZE, 0xf), -1);
    assert_eq!(sys_mmap(&mut tm, MEMORY_END, PAGE_SIZE, 1), -1);
    assert_eq!(pte(&tm, 0x1000_0000 / PAGE_SIZE), None);
}

#[test]
fn mmap_refuses_a_mapped_page() {
    let mut tm = one_task();
    assert_eq!(sys_mmap(&mut tm, 0x1000_0000, PAGE_SIZE, 1), 0);
    assert_eq!(sys_mmap(&mut tm, 0x1000_0000 - PAGE_SIZE, 2 * PAGE_SIZE, 2), -1);
    assert_eq!(pte(&tm, 0x1000_0000 / PAGE_SIZE - 1), None);
    assert_eq!(sys_mmap(&mut tm, PAGE_SIZE, 1, 1), -1);
}

#[test]
fn mmap_of_zero_length_maps_nothing() {
    let mut tm = one_task();
    assert_eq!(sys_mmap(&mut tm, 0x1000_0000, 0, 1), 0);
    assert_eq!(pte(&tm, 0x1000_0000 / PAGE_SIZE), None);
}

#[test]
fn munmap_undoes_mmap() {
    let mut tm = one_task();
    let start = 0x1000_0000;
    assert_eq!(sys_mmap(&mut tm, start, 3 * PAGE_SIZE, 3), 0);
    assert_eq!(sys_munmap(&mut tm, start, 3 * PAGE_SIZE), 0);
    for v in start / PAGE_SIZE..start / PAGE_SIZE + 3 {
        assert!(!pte(&tm, v).unwrap().is_valid());
    }
    assert_eq!(sys_mmap(&mut tm, start, 3 * PAGE_SIZE, 1), 0);
}

#[test]
fn munmap_refuses_bad_arguments() {
    let mut tm = one_task();
    assert_eq!(sys_munmap(&mut tm, PAGE_SIZE + 1, PAGE_SIZE), -1);
    assert_eq!(sys_munmap(&mut tm, MEMORY_END, PAGE_SIZE), -1);
    assert!(pte(&tm, 1).unwrap().is_valid());
}

#[test]
fn munmap_stops_at_the_first_unmapped_page() {
    let mut tm = one_task();
    // pages 1 and 2 are mapped, page 3 is not
    assert_eq!(sys_munmap(&mut tm, PAGE_SIZE, 3 * PAGE_SIZE), -1);
    assert!(!pte(&tm, 1).unwrap().is_valid());
    assert!(!pte(&tm, 2).unwrap().is_valid());
    assert_eq!(pte(&tm, 3), Some(PageTableEntry::empty()));
    // a page whose entry is empty is refused too
    assert_eq!(sys_munmap(&mut tm, PAGE_SIZE, PAGE_SIZE), -1);
}

#[test]
fn munmap_of_zero_length_succeeds() {
    let mut tm = one_task();
    assert_eq!(sys_munmap(&mut tm, 0x1000_0000, 0), 0);
}

#[test]
fn sbrk_grows_and_shrinks_the_heap() {
    let mut tm = one_task();
    let heap_vpn = HEAP / PAGE_SIZE;
    assert_eq!(sys_sbrk(&mut tm, 0), HEAP as isize);
    assert_eq!(sys_sbrk(&mut tm, 100), HEAP as isize);
    assert_eq!(tm.tasks[0].program_brk, HEAP + 100);
    assert_eq!(
        pte(&tm, heap_vpn),
        Some(PageTableEntry::new(FIRST_FRAME + 4, PTE_V | PTE_R | PTE_W | PTE_U))
    );
    assert_eq!(pte(&tm, heap_vpn + 1), Some(PageTableEntry::empty()));
    assert_eq!(sys_sbrk(&mut tm, PAGE_SIZE as i32), (HEAP + 100) as isize);
    assert!(pte(&tm, heap_vpn + 1).unwrap().is_valid());
    assert_eq!(sys_sbrk(&mut tm, -(PAGE_SIZE as i32)), (HEAP + 100 + PAGE_SIZE) as isize);
    assert!(!pte(&tm, heap_vpn + 1).unwrap().is_valid());
    assert!(pte(&tm, heap_vpn).unwrap().is_valid());
    assert_eq!(sys_sbrk(&mut tm, -100), (HEAP + 100) as isize);
    assert_eq!(tm.tasks[0].program_brk, HEAP);
    assert!(!pte(&tm, heap_vpn).unwrap().is_valid());
}

#[test]
fn sbrk_gives_heap_frames_back_for_reuse() {
    let mut tm = one_task();
    assert_eq!(sys_sbrk(&mut tm, 2 * PAGE_SIZE as i32), HEAP as isize);
    assert_eq!(pte(&tm, HEAP / PAGE_SIZE).unwrap().ppn(), FIRST_FRAME + 4);
    assert_eq!(pte(&tm, HEAP / PAGE_SIZE + 1).unwrap().ppn(), FIRST_FRAME + 5);
    assert_eq!(sys_sbrk(&mut tm, -2 * PAGE_SIZE as i32), (HEAP + 2 * PAGE_SIZE) as isize);
    // the pages are given back from the lowest up
    assert_eq!(tm.frame_allocator.recycled, vec![FIRST_FRAME + 4, FIRST_FRAME + 5]);
    // the frame given back last is handed out first
    assert_eq!(sys_sbrk(&mut tm, 1), HEAP as isize);
    assert_eq!(pte(&tm, HEAP / PAGE_SIZE).unwrap().ppn(), FIRST_FRAME + 5);
    assert_eq!(tm.frame_allocator.recycled, vec![FIRST_FRAME + 4]);
}

#[test]
fn sbrk_refuses_to_go_below_the_heap_bottom() {
    let mut tm = one_task();
    assert_eq!(sys_sbrk(&mut tm, -1), -1);
    assert_eq!(tm.tasks[0].program_brk, HEAP);
    assert_eq!(sys_sbrk(&mut tm, 8), HEAP as isize);
    assert_eq!(sys_sbrk(&mut tm, -9), -1);
    assert_eq!(tm.tasks[0].program_brk, HEAP + 8);
}

#[test]
fn get_time_follows_the_clock() {
    let mut tm = one_task();
    let ts = PAGE_SIZE;
    let mut last = (0u64, 0u64);
    for us in [0usize, 999_999, 1_000_000, 1_000_001, 2_500_000, 2_999_999] {
        sys_get_time(&mut tm, ts, 0, us);
        let bytes = read(&tm, ts, TIME_VAL_SIZE);
        let tv = (
            u64::from_le_bytes(bytes[..8].try_into().unwrap()),
            u64::from_le_bytes(bytes[8..].try_into().unwrap()),
        );
        assert!(tv >= last);
        last = tv;
    }
}

#[test]
fn refused_start_is_refused_whatever_the_length() {
    let mut tm = one_task();
    assert_eq!(sys_mmap(&mut tm, 0x1000_0001, usize::MAX, 1), -1);
    assert_eq!(sys_mmap(&mut tm, 0x1000_0000, usize::MAX, 0), -1);
    assert_eq!(sys_munmap(&mut tm, MEMORY_END, usize::MAX), -1);
    assert_eq!(sys_munmap(&mut tm, PAGE_SIZE + 1, usize::MAX), -1);
}

#[test]
fn sbrk_down_undoes_sbrk_up() {
    let mut tm = one_task();
    let b = sys_sbrk(&mut tm, 3 * PAGE_SIZE as i32 + 5);
    assert_eq!(b, HEAP as isize);
    assert_eq!(sys_sbrk(&mut tm, -(3 * PAGE_SIZE as i32 + 5)), b + 3 * PAGE_SIZE as isize + 5);
    assert_eq!(tm.tasks[0].program_brk, HEAP);
    assert!(!pte(&tm, HEAP / PAGE_SIZE).unwrap().is_valid());
}
