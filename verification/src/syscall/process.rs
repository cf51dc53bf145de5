//! Process-management system calls.
use vstd::prelude::*;
use crate::config::{MAX_SYSCALL_NUM, MEMORY_END, PAGE_SIZE};
use crate::mm::{
    map_all_fits, MemorySet,
    MapPermission, PageTableEntry, VirtAddr, VirtPageNum, lemma_first_unmapped_all_mapped,
    lemma_first_unmapped_props, lemma_map_all_entries, lemma_vpn_ceil_value, map_all, zero_page, PTE_V,
    va_limit,
    vpn_ceil, vpn_floor,
};
use crate::task::{
    TaskControlBlock, TaskManager, TaskStatus, change_program_brk, heap_fresh, heap_permission, create_new_maparea, exit_current_and_run_next,
    get_run_time, get_task_syscall_times, get_vpn_pte, next_ready_in, bump, calls_of,
    lemma_dealloc_all_ok,
    lemma_counts_are_calls,
    suspend_current_and_run_next, unmap_maparea,
};

verus! {

/// A time: seconds and microseconds.
#[derive(Debug)]
pub struct TimeVal {
    pub sec: usize,
    pub usec: usize,
}

/// Task information.
pub struct TaskInfo {
    /// Task status in its life cycle.
    status: TaskStatus,
    /// The numbers of system calls made by the task.
    syscall_times: [u32; MAX_SYSCALL_NUM],
    /// Total running time of the task.
    time: usize,
}

/// Size in bytes of a `TimeVal` in user memory.
pub const TIME_VAL_SIZE: usize = 16;

/// Size in bytes of a `TaskInfo` in user memory.
pub const TASK_INFO_SIZE: usize = 2016;

/// The `n` low bytes of `x`, least significant first.
pub open spec fn le_bytes(x: nat, n: nat) -> Seq<u8>
    decreases n,
{
    if n == 0 {
        Seq::empty()
    } else {
        seq![(x % 256) as u8] + le_bytes(x / 256, (n - 1) as nat)
    }
}

/// The 32-bit numbers `s`, each in four bytes, least significant first.
pub open spec fn u32s_le(s: Seq<u32>) -> Seq<u8>
    decreases s.len(),
{
    if s.len() == 0 {
        Seq::empty()
    } else {
        u32s_le(s.drop_last()) + le_bytes(s.last() as nat, 4)
    }
}

/// The number by which user programs know a task status.
pub open spec fn status_code(s: TaskStatus) -> nat {
    match s {
        TaskStatus::UnInit => 0,
        TaskStatus::Ready => 1,
        TaskStatus::Running => 2,
        TaskStatus::Exited => 3,
    }
}

/// A `TimeVal` as user programs see it: the seconds, then the microseconds,
/// each in eight bytes.
pub open spec fn time_val_layout(sec: nat, usec: nat) -> Seq<u8> {
    le_bytes(sec, 8) + le_bytes(usec, 8)
}

/// A `TaskInfo` as the library writes it to user memory: the fields in the
/// order they are declared, each aligned as a C struct aligns it (the status in
/// four bytes, the counts in four bytes each, four bytes of padding, then the
/// running time in eight bytes). `TaskInfo` has no fixed layout of its own, so
/// the library fixes this one, which a user program can declare with
/// `#[repr(C)]` and read back.
pub open spec fn task_info_layout(status: TaskStatus, times: Seq<u32>, time: nat) -> Seq<u8> {
    le_bytes(status_code(status), 4) + u32s_le(times) + le_bytes(0, 4) + le_bytes(time, 8)
}

/// The milliseconds that the task `t` has run at the time `now`: since its
/// first launch, or 0 if it never ran.
pub open spec fn run_time(t: TaskControlBlock, now: usize) -> int {
    match t.first_lauch_time {
        Some(s) => now - s,
        None => 0,
    }
}

/// What `task_info` writes for the task `t` at the time `now`: the task
/// running, its counts, and its running time.
pub open spec fn task_info_of(t: TaskControlBlock, now: usize) -> Seq<u8> {
    task_info_layout(TaskStatus::Running, t.syscall_times@, run_time(t, now) as nat)
}

/// What `get_time` writes for the time `us` in microseconds: the whole
/// seconds, then the microseconds left over.
pub open spec fn time_val_of(us: usize) -> Seq<u8> {
    time_val_layout((us / 1_000_000) as nat, (us % 1_000_000) as nat)
}

/// Appends the `n` low bytes of `x` to `out`, least significant first.
fn push_le_bytes(out: &mut Vec<u8>, x: u64, n: usize)
    ensures
        final(out)@ == old(out)@ + le_bytes(x as nat, n as nat),
{
    let mut y: u64 = x;
    let mut i: usize = 0;
    while i < n
        invariant
            i <= n,
            out@ + le_bytes(y as nat, (n - i) as nat) == old(out)@ + le_bytes(x as nat, n as nat),
        decreases n - i,
    {
        let ghost before = out@;
        out.push((y % 256) as u8);
        assert(le_bytes(y as nat, (n - i) as nat) == seq![(y % 256) as u8] + le_bytes(
            (y / 256) as nat,
            (n - i - 1) as nat,
        ));
        assert(out@ + le_bytes((y / 256) as nat, (n - i - 1) as nat) =~= before + le_bytes(
            y as nat,
            (n - i) as nat,
        ));
        y = y / 256;
        i = i + 1;
    }
    assert(le_bytes(y as nat, 0) =~= Seq::<u8>::empty());
    assert(out@ =~= out@ + le_bytes(y as nat, 0));
}

/// The bytes of a `TimeVal` in user memory.
fn time_val_bytes(tv: &TimeVal) -> (r: Vec<u8>)
    ensures
        r@ == time_val_layout(tv.sec as nat, tv.usec as nat),
        r@.len() == TIME_VAL_SIZE,
{
    let mut out: Vec<u8> = Vec::new();
    push_le_bytes(&mut out, tv.sec as u64, 8);
    push_le_bytes(&mut out, tv.usec as u64, 8);
    proof {
        lemma_le_bytes_len(tv.sec as nat, 8);
        lemma_le_bytes_len(tv.usec as nat, 8);
    }
    assert(out@ =~= time_val_layout(tv.sec as nat, tv.usec as nat));
    out
}

/// `le_bytes(x, n)` has `n` bytes.
proof fn lemma_le_bytes_len(x: nat, n: nat)
    ensures
        le_bytes(x, n).len() == n,
    decreases n,
{
    if n > 0 {
        lemma_le_bytes_len(x / 256, (n - 1) as nat);
    }
}

/// `u32s_le(s)` has four bytes per number.
proof fn lemma_u32s_le_len(s: Seq<u32>)
    ensures
        u32s_le(s).len() == 4 * s.len(),
    decreases s.len(),
{
    if s.len() > 0 {
        lemma_u32s_le_len(s.drop_last());
        lemma_le_bytes_len(s.last() as nat, 4);
    }
}

/// The bytes of a `TaskInfo` in user memory.
fn task_info_bytes(info: &TaskInfo) -> (r: Vec<u8>)
    requires
        info.syscall_times@.len() == MAX_SYSCALL_NUM,
    ensures
        r@ == task_info_layout(info.status, info.syscall_times@, info.time as nat),
        r@.len() == TASK_INFO_SIZE,
{
    let code: u64 = match info.status {
        TaskStatus::UnInit => 0,
        TaskStatus::Ready => 1,
        TaskStatus::Running => 2,
        TaskStatus::Exited => 3,
    };
    let mut out: Vec<u8> = Vec::new();
    push_le_bytes(&mut out, code, 4);
    let ghost head = out@;
    let times = &info.syscall_times;
    let mut i: usize = 0;
    while i < MAX_SYSCALL_NUM
        invariant
            i <= times@.len() == MAX_SYSCALL_NUM,
            out@ == head + u32s_le(times@.subrange(0, i as int)),
        decreases times@.len() - i,
    {
        push_le_bytes(&mut out, times[i] as u64, 4);
        assert(times@.subrange(0, i + 1).drop_last() =~= times@.subrange(0, i as int));
        assert(out@ =~= head + u32s_le(times@.subrange(0, i + 1)));
        i = i + 1;
    }
    assert(times@.subrange(0, times@.len() as int) =~= times@);
    push_le_bytes(&mut out, 0, 4);
    push_le_bytes(&mut out, info.time as u64, 8);
    proof {
        lemma_le_bytes_len(code as nat, 4);
        lemma_u32s_le_len(times@);
        lemma_le_bytes_len(0, 4);
        lemma_le_bytes_len(info.time as nat, 8);
    }
    assert(out@ =~= task_info_layout(info.status, info.syscall_times@, info.time as nat));
    out
}

/// Writes `data` to the current task's memory at the user address `va`.
fn copy_to_user(tm: &mut TaskManager, va: usize, data: &Vec<u8>)
    requires
        old(tm).wf(),
        va + data@.len() <= usize::MAX,
        old(tm).cur().memory_set.range_mapped(va as int, data@.len() as int),
    ensures
        final(tm).wf(),
        final(tm).only_current_space_changed(old(tm)),
        final(tm).cur().program_brk == old(tm).cur().program_brk,
        final(tm).cur().memory_set.wrote(&old(tm).cur().memory_set, va, data@),
{
    let cur = tm.current_task;
    assert(old(tm).tasks@[cur as int].wf());
    tm.tasks[cur].memory_set.write_bytes(va, data);
    assert forall|i: int| 0 <= i < tm.num_app implies #[trigger] tm.tasks@[i].wf() by {
        if i != cur {
            assert(tm.tasks@[i] == old(tm).tasks@[i]);
        }
    }
}

/// Whether `mmap` accepts its arguments: a page-aligned start below
/// `MEMORY_END`, and a protection with no bit above the three low ones and at
/// least one of them.
pub open spec fn mmap_args_ok(start: usize, port: usize) -> bool {
    &&& start % PAGE_SIZE == 0
    &&& 1 <= port <= 7
    &&& start < MEMORY_END
}

/// Whether `munmap` accepts its arguments: a page-aligned start below `MEMORY_END`.
pub open spec fn munmap_args_ok(start: usize) -> bool {
    &&& start % PAGE_SIZE == 0
    &&& start < MEMORY_END
}

/// Whether `mmap` maps `[start, start + len)` with the protection `port` into
/// the current task of `tm`: it accepts the arguments, and no page of the
/// range is mapped yet.
pub open spec fn mmap_accepts(tm: &TaskManager, start: usize, len: usize, port: usize) -> bool {
    &&& mmap_args_ok(start, port)
    &&& forall|v: usize|
        page_span(start, len).0 <= v < page_span(start, len).1 ==> !#[trigger] tm.cur().memory_set.maps(v)
}

/// The pages that `[start, start + len)` touches, the addresses cut to Sv39:
/// their first and one past their last page.
pub open spec fn page_span(start: usize, len: usize) -> (int, int) {
    (vpn_floor(start as int % va_limit()), vpn_ceil((start + len) % va_limit()))
}

/// The current task exits with `_exit_code`, and the next ready task runs:
/// its id is returned. A task other than the current one must be ready: where
/// none is, all tasks have completed, and the caller stops.
pub fn sys_exit(tm: &mut TaskManager, _exit_code: i32, now: usize) -> (r: usize)
    requires
        old(tm).wf(),
        next_ready_in(
            old(tm).statuses().update(old(tm).current_task as int, TaskStatus::Exited),
            old(tm).current_task as int,
        ) is Some,
    ensures
        final(tm).wf(),
        Some(r) == next_ready_in(
            old(tm).statuses().update(old(tm).current_task as int, TaskStatus::Exited),
            old(tm).current_task as int,
        ),
        final(tm).switched_from(old(tm), TaskStatus::Exited, now, r),
        final(tm).status(old(tm).current_task as int) == TaskStatus::Exited,
        final(tm).current_task != old(tm).current_task,
        final(tm).exited_kept(old(tm)),
        final(tm).launch_kept(old(tm)),
{
    exit_current_and_run_next(tm, now)
}

/// The current task gives up the processor to the next ready task (itself, if
/// no other is ready); returns 0.
pub fn sys_yield(tm: &mut TaskManager, now: usize) -> (r: isize)
    requires
        old(tm).wf(),
    ensures
        final(tm).wf(),
        r == 0,
        next_ready_in(
            old(tm).statuses().update(old(tm).current_task as int, TaskStatus::Ready),
            old(tm).current_task as int,
        ) matches Some(next) && final(tm).switched_from(old(tm), TaskStatus::Ready, now, next),
        final(tm).exited_kept(old(tm)),
        final(tm).launch_kept(old(tm)),
{
    let _ = suspend_current_and_run_next(tm, now);
    0
}

/// Writes the time `us` (in microseconds) as a `TimeVal` to the user address
/// `ts` of the current task; returns 0.
pub fn sys_get_time(tm: &mut TaskManager, ts: usize, _tz: usize, us: usize) -> (r: isize)
    requires
        old(tm).wf(),
        ts + TIME_VAL_SIZE <= usize::MAX,
        old(tm).cur().memory_set.range_mapped(ts as int, TIME_VAL_SIZE as int),
    ensures
        final(tm).wf(),
        final(tm).exited_kept(old(tm)),
        final(tm).launch_kept(old(tm)),
        r == 0,
        final(tm).only_current_space_changed(old(tm)),
        final(tm).cur().program_brk == old(tm).cur().program_brk,
        final(tm).cur().memory_set.wrote(
            &old(tm).cur().memory_set,
            ts,
            time_val_of(us),
        ),
{
    let time_val = TimeVal { sec: us / 1_000_000, usec: us % 1_000_000 };
    let bytes = time_val_bytes(&time_val);
    copy_to_user(tm, ts, &bytes);
    0
}

/// Writes the current task's information (running; its system-call counts; the
/// milliseconds since it first ran, `now` being the time) as a `TaskInfo` to
/// the user address `ti`, and returns 0; returns -1, writing nothing, if that
/// time is 0.
pub fn sys_task_info(tm: &mut TaskManager, ti: usize, now: usize) -> (r: isize)
    requires
        old(tm).wf(),
        old(tm).cur().first_lauch_time matches Some(t) ==> t <= now,
        old(tm).cur().first_lauch_time matches Some(t) && t < now ==> {
            &&& ti + TASK_INFO_SIZE <= usize::MAX
            &&& old(tm).cur().memory_set.range_mapped(ti as int, TASK_INFO_SIZE as int)
        },
    ensures
        final(tm).wf(),
        final(tm).exited_kept(old(tm)),
        final(tm).launch_kept(old(tm)),
        ({
            let time = run_time(old(tm).cur(), now);
            &&& time == 0 ==> r == -1 && *final(tm) == *old(tm)
            &&& time != 0 ==> {
                &&& r == 0
                &&& final(tm).only_current_space_changed(old(tm))
                &&& final(tm).cur().program_brk == old(tm).cur().program_brk
                &&& final(tm).cur().memory_set.wrote(&old(tm).cur().memory_set, ti, task_info_of(old(tm).cur(), now))
            }
        }),
{
    let sys_status = TaskStatus::Running;
    let syscall_times = get_task_syscall_times(tm);
    let time = get_run_time(tm, now);
    if time == 0 {
        return -1;
    }
    assert(old(tm).tasks@[old(tm).current_task as int].wf());
    let task_info = TaskInfo { status: sys_status, syscall_times: *syscall_times, time };
    let bytes = task_info_bytes(&task_info);
    copy_to_user(tm, ti, &bytes);
    0
}

/// Maps the pages of `[start, start + len)` into the current task with the
/// protection `port` (bit 0 read, bit 1 write, bit 2 execute) and the user
/// bit, each to a zeroed frame; returns 0. Returns -1, changing nothing, if
/// the arguments are refused (see `mmap_args_ok`) or a page of the range is
/// already mapped.
pub fn sys_mmap(tm: &mut TaskManager, start: usize, len: usize, port: usize) -> (r: isize)
    requires
        old(tm).wf(),
        mmap_args_ok(start, port) ==> start + len <= usize::MAX && page_span(start, len).0
            <= page_span(start, len).1,
        mmap_accepts(old(tm), start, len, port) ==> map_all_fits(
            old(tm).cur().memory_set.pt_state(old(tm).frame_allocator.state()),
            page_span(start, len).0,
            page_span(start, len).1,
            MapPermission { bits: ((2 * port) as u8) | 0x10 },
        ),
    ensures
        final(tm).wf(),
        final(tm).exited_kept(old(tm)),
        final(tm).launch_kept(old(tm)),
        ({
            let ok = mmap_accepts(old(tm), start, len, port);
            &&& r == (if ok { 0isize } else { -1isize })
            &&& !ok ==> *final(tm) == *old(tm)
            &&& ok ==> final(tm).area_mapped(
                old(tm),
                VirtAddr((start as int % va_limit()) as usize),
                VirtAddr(((start + len) % va_limit()) as usize),
                MapPermission { bits: (2 * port) as u8 },
            )
        }),
{
    let bad_port = port & !0x7usize != 0 || port & 0x7usize == 0;
    assert(bad_port == !(1 <= port <= 7)) by (bit_vector)
        requires
            bad_port == (port & !0x7usize != 0 || port & 0x7usize == 0),
    ;
    if start % PAGE_SIZE != 0 || bad_port || start >= MEMORY_END {
        return -1;
    }
    let va_start = VirtAddr::new(start).floor();
    let va_end = VirtAddr::new(start + len).ceil();
    let ghost lo = va_start.0 as int;
    let ghost hi = va_end.0 as int;
    assert(page_span(start, len).0 == lo && page_span(start, len).1 == hi);
    let mut vpn = va_start.0;
    while vpn < va_end.0
        invariant
            lo <= vpn <= hi,
            hi == va_end.0,
            page_span(start, len).0 == lo && page_span(start, len).1 == hi,
            tm.wf(),
            *tm == *old(tm),
            forall|v: usize| lo <= v < vpn ==> !#[trigger] tm.cur().memory_set.maps(v),
        decreases hi - vpn,
    {
        assert(tm.tasks@[tm.current_task as int].wf());
        if let Some(pte) = get_vpn_pte(tm, VirtPageNum(vpn)) {
            if pte.is_valid() {
                assert(old(tm).cur().memory_set.maps(vpn));
                return -1;
            }
        }
        vpn = vpn + 1;
    }
    let shifted = port << 1usize;
    assert(port <= 7 ==> (port << 1usize) == port * 2 && (port << 1usize) < 16) by (bit_vector);
    let bits = shifted as u8;
    let perm = MapPermission::from_bits_truncate(bits);
    assert(bits == 2 * port);
    assert(bits < 16 && bits % 2 == 0 ==> bits & 0x1e == bits) by (bit_vector);
    create_new_maparea(tm, VirtAddr::new(start), VirtAddr::new(start + len), perm);
    0
}

/// Unmaps the pages of `[start, start + len)` from the current task, one after
/// the other up to the first that is not mapped; returns 0 if there was none,
/// else -1. Returns -1, changing nothing, if the arguments are refused (see
/// `munmap_args_ok`).
pub fn sys_munmap(tm: &mut TaskManager, start: usize, len: usize) -> (r: isize)
    requires
        old(tm).wf(),
        munmap_args_ok(start) ==> start + len <= usize::MAX && page_span(start, len).0
            <= page_span(start, len).1,
    ensures
        final(tm).wf(),
        final(tm).exited_kept(old(tm)),
        final(tm).launch_kept(old(tm)),
        !munmap_args_ok(start) ==> r == -1 && *final(tm) == *old(tm),
        munmap_args_ok(start) ==> final(tm).area_unmapped(old(tm), start, len, r),
{
    if start % PAGE_SIZE != 0 || start >= MEMORY_END {
        return -1;
    }
    unmap_maparea(tm, start, len)
}

/// Moves the current task's break by `size` bytes; returns the old break, or
/// -1, changing nothing, if the break would fall below the heap's bottom.
pub fn sys_sbrk(tm: &mut TaskManager, size: i32) -> (r: isize)
    requires
        old(tm).wf(),
        old(tm).cur().brk_target(size) <= isize::MAX,
        old(tm).cur().brk_move_ok(size, old(tm).frame_allocator.state()),
    ensures
        final(tm).wf(),
        final(tm).exited_kept(old(tm)),
        final(tm).launch_kept(old(tm)),
        final(tm).brk_changed(
            old(tm),
            size,
            if r == -1 { None } else { Some(r as usize) },
        ),
        r == -1 || r == old(tm).cur().program_brk,
{
    assert(old(tm).tasks@[old(tm).current_task as int].wf());
    if let Some(old_brk) = change_program_brk(tm, size) {
        old_brk as isize
    } else {
        -1
    }
}

/// `munmap` undoes `mmap`: after `mmap` mapped `[start, start + len)` (`t1`
/// to `t2`), `munmap` accepts the same range, and an `munmap` of it (`t2` to
/// `t3`) succeeds and leaves each of its pages unmapped.
pub proof fn lemma_munmap_undoes_mmap(
    t1: TaskManager,
    t2: TaskManager,
    t3: TaskManager,
    start: usize,
    len: usize,
    port: usize,
    r: isize,
)
    requires
        t1.wf(),
        start + len <= usize::MAX,
        mmap_accepts(&t1, start, len, port),
        page_span(start, len).0 <= page_span(start, len).1,
        t2.area_mapped(
            &t1,
            VirtAddr((start as int % va_limit()) as usize),
            VirtAddr(((start + len) % va_limit()) as usize),
            MapPermission { bits: (2 * port) as u8 },
        ),
        t3.area_unmapped(&t2, start, len, r),
    ensures
        munmap_args_ok(start),
        r == 0,
        t3.cur().memory_set.cleared_in(page_span(start, len).0, page_span(start, len).1),
        forall|v: usize|
            page_span(start, len).0 <= v < page_span(start, len).1 ==> !#[trigger] t3.cur().memory_set.maps(v),
{
    let lo = page_span(start, len).0;
    let hi = page_span(start, len).1;
    let ms = t2.cur().memory_set;
    assert(0 <= start as int % va_limit() <= start);
    assert(0 <= (start + len) % va_limit() <= start + len);
    assert forall|u: usize| lo <= u < hi implies #[trigger] ms.maps(u) by {}
    lemma_first_unmapped_all_mapped(ms, lo, hi);
    assert forall|v: usize| lo <= v < hi implies !#[trigger] t3.cur().memory_set.maps(v) by {
        assert(t3.cur().memory_set.ptes().contains_key(v));
    }
}

/// `mmap` does not map a page twice: once a non-empty range is mapped, a
/// second `mmap` of it is refused.
pub proof fn lemma_mmap_twice_refused(
    t1: TaskManager,
    t2: TaskManager,
    start: usize,
    len: usize,
    port: usize,
    port2: usize,
)
    requires
        start + len <= usize::MAX,
        mmap_accepts(&t1, start, len, port),
        page_span(start, len).0 < page_span(start, len).1,
        t2.area_mapped(
            &t1,
            VirtAddr((start as int % va_limit()) as usize),
            VirtAddr(((start + len) % va_limit()) as usize),
            MapPermission { bits: (2 * port) as u8 },
        ),
    ensures
        !mmap_accepts(&t2, start, len, port2),
{
    let lo = page_span(start, len).0;
    assert(0 <= start as int % va_limit() <= start);
    assert(0 <= (start + len) % va_limit() <= start + len);
    assert(0 <= lo <= usize::MAX);
    let sv = VirtAddr((start as int % va_limit()) as usize);
    let ev = VirtAddr(((start + len) % va_limit()) as usize);
    assert(sv.0 as int == start as int % va_limit());
    assert(ev.0 as int == (start + len) % va_limit());
    assert(vpn_floor(sv.0 as int) == lo);
    assert(t2.cur().memory_set.fresh_in(lo, page_span(start, len).1));
    assert(t2.cur().memory_set.maps(lo as usize));
    assert(t2.cur().memory_set.maps(lo as usize));
}

/// `sbrk` down undoes `sbrk` up: after the break moved up by `size` (`t1` to
/// `t2`), it can move down by `size`, and that move (`t2` to `t3`) returns
/// the raised break and brings the break back to where it was.
pub proof fn lemma_sbrk_shrink_undoes_grow(
    t1: TaskManager,
    t2: TaskManager,
    t3: TaskManager,
    size: i32,
    r2: Option<usize>,
    r3: Option<usize>,
)
    requires
        t1.wf(),
        t2.wf(),
        size >= 0,
        t2.brk_changed(&t1, size, r2),
        t3.brk_changed(&t2, (-size) as i32, r3),
    ensures
        r2 == Some(t1.cur().program_brk),
        t2.cur().brk_target((-size) as i32) <= isize::MAX,
        t2.cur().brk_move_ok((-size) as i32, t2.frame_allocator.state()),
        r3 == Some(t2.cur().program_brk),
        t3.cur().program_brk == t1.cur().program_brk,
{
    assert(t1.tasks@[t1.current_task as int].wf());
    assert(t2.tasks@[t2.current_task as int].wf());
    let lo = vpn_ceil(t1.cur().program_brk as int);
    let hi = vpn_ceil(t1.cur().brk_target(size));
    let hf = t2.cur().heap_frames@;
    let a = t2.frame_allocator.state();
    assert(t1.cur().brk_target(size) >= t1.cur().heap_bottom);
    assert(t2.cur().heap_grown(&t1.cur(), lo, hi, t1.frame_allocator.state(), a));
    assert(heap_fresh(hf, t2.cur().memory_set.ptes(), a, lo, hi));
    assert forall|v: usize| lo <= v < hi implies #[trigger] t2.cur().memory_set.maps(v) by {}
    assert forall|u: usize| lo <= u < hi implies {
        &&& #[trigger] hf.contains_key(u)
        &&& hf[u] < a.current
        &&& !a.recycled.contains(hf[u])
    } by {
        assert(t2.cur().heap_frames@.contains_key(u));
    }
    lemma_dealloc_all_ok(a, hf, lo, hi);
}

/// `get_time` follows the clock: of two readings `us1 <= us2`, the
/// (seconds, microseconds) that `sys_get_time` writes for `us1` come no later,
/// in lexicographic order, than those it writes for `us2`.
pub proof fn lemma_time_val_monotone(us1: usize, us2: usize)
    requires
        us1 <= us2,
    ensures
        us1 / 1_000_000 < us2 / 1_000_000 || (us1 / 1_000_000 == us2 / 1_000_000 && us1
            % 1_000_000 <= us2 % 1_000_000),
{
    assert(us1 == 1_000_000 * (us1 / 1_000_000) + us1 % 1_000_000);
    assert(us2 == 1_000_000 * (us2 / 1_000_000) + us2 % 1_000_000);
    assert(us1 / 1_000_000 <= us2 / 1_000_000) by (nonlinear_arith)
        requires
            us1 <= us2,
    ;
}

/// `task_info` reports the calls a task made and the time since it first
/// ran: along steps as in `lemma_counts_are_calls` (counts all zero at the
/// start, calls `ids`), the counts that `sys_task_info` writes from the last
/// state are the numbers of calls of each system call, and the time it
/// writes at `now` is `now - t0`, `t0` being the task's launch time.
pub proof fn lemma_task_info_reports_calls(
    states: Seq<TaskManager>,
    ids: Seq<usize>,
    t0: usize,
    now: usize,
)
    requires
        states.len() == ids.len() + 1,
        states[0].wf(),
        forall|j: int| 0 <= j < MAX_SYSCALL_NUM ==> #[trigger] states[0].cur().syscall_times@[j] == 0,
        forall|i: int|
            0 <= i < ids.len() ==> #[trigger] states[i + 1].current_task == states[i].current_task
                && states[i + 1].cur().syscall_times@ == bump(states[i].cur().syscall_times@, ids[i]),
        forall|j: int| 0 <= j < MAX_SYSCALL_NUM ==> #[trigger] calls_of(ids, j) <= u32::MAX,
        states.last().cur().first_lauch_time == Some(t0),
        t0 < now,
    ensures
        ({
            let time: int = match states.last().cur().first_lauch_time {
                Some(t) => now - t,
                None => 0,
            };
            &&& time == now - t0
            &&& task_info_layout(TaskStatus::Running, states.last().cur().syscall_times@, time as nat)
                == task_info_layout(
                TaskStatus::Running,
                Seq::new(MAX_SYSCALL_NUM as nat, |j: int| calls_of(ids, j) as u32),
                (now - t0) as nat,
            )
        }),
{
    lemma_counts_are_calls(states, ids);
    assert(states.last().cur().syscall_times@ =~= Seq::new(
        MAX_SYSCALL_NUM as nat,
        |j: int| calls_of(ids, j) as u32,
    ));
}


/// The number that the bytes `s` encode, least significant first.
pub open spec fn le_value(s: Seq<u8>) -> nat
    decreases s.len(),
{
    if s.len() == 0 {
        0
    } else {
        s[0] as nat + 256 * le_value(s.drop_first())
    }
}

/// 256 to the power `n`: one more than the largest number `n` bytes hold.
pub open spec fn pow256(n: nat) -> nat
    decreases n,
{
    if n == 0 {
        1
    } else {
        256 * pow256((n - 1) as nat)
    }
}

/// Encoding a number in `n` bytes, least significant first, loses nothing:
/// the bytes decode back to the number whenever it fits in them.
pub proof fn lemma_le_bytes_decode(x: nat, n: nat)
    requires
        x < pow256(n),
    ensures
        le_bytes(x, n).len() == n,
        le_value(le_bytes(x, n)) == x,
    decreases n,
{
    lemma_le_bytes_len(x, n);
    if n > 0 {
        let m = (n - 1) as nat;
        assert(x / 256 < pow256(m));
        lemma_le_bytes_decode(x / 256, m);
        let b = le_bytes(x, n);
        assert(b.drop_first() =~= le_bytes(x / 256, m));
        assert(b[0] as nat == x % 256);
    }
}

/// In `u32s_le(s)` the number `s[j]` takes the bytes `4 * j` to `4 * j + 4`.
pub proof fn lemma_u32s_le_field(s: Seq<u32>, j: int)
    requires
        0 <= j < s.len(),
    ensures
        u32s_le(s).len() == 4 * s.len(),
        u32s_le(s).subrange(4 * j, 4 * j + 4) == le_bytes(s[j] as nat, 4),
    decreases s.len(),
{
    lemma_u32s_le_len(s);
    lemma_u32s_le_len(s.drop_last());
    lemma_le_bytes_len(s.last() as nat, 4);
    let head = u32s_le(s.drop_last());
    if j == s.len() - 1 {
        assert(u32s_le(s).subrange(4 * j, 4 * j + 4) =~= le_bytes(s[j] as nat, 4));
    } else {
        lemma_u32s_le_field(s.drop_last(), j);
        assert(u32s_le(s).subrange(4 * j, 4 * j + 4) =~= head.subrange(4 * j, 4 * j + 4));
    }
}

/// The fields of what `task_info` writes read back, each as a little-endian
/// number: bytes `0..4` give the status's code, bytes `4 + 4j..8 + 4j` give
/// the count of the system call `j` whole, and bytes `2008..2016` give the
/// running time whole (for any time below 2^64); the record has `TASK_INFO_SIZE` bytes.
pub proof fn lemma_task_info_fields(status: TaskStatus, times: Seq<u32>, time: nat)
    requires
        times.len() == MAX_SYSCALL_NUM,
        time < 0x1_0000_0000_0000_0000,
    ensures
        task_info_layout(status, times, time).len() == TASK_INFO_SIZE,
        le_value(task_info_layout(status, times, time).subrange(0, 4)) == status_code(status),
        status == TaskStatus::Running ==> le_value(task_info_layout(status, times, time).subrange(0, 4)) == 2,
        forall|j: int|
            0 <= j < MAX_SYSCALL_NUM ==> le_value(
                #[trigger] task_info_layout(status, times, time).subrange(4 + 4 * j, 8 + 4 * j),
            ) == times[j],
        le_value(task_info_layout(status, times, time).subrange(2008, 2016)) == time,
{
    reveal_with_fuel(pow256, 9);
    let b = task_info_layout(status, times, time);
    let code = le_bytes(status_code(status), 4);
    let counts = u32s_le(times);
    lemma_u32s_le_len(times);
    lemma_le_bytes_decode(status_code(status), 4);
    lemma_le_bytes_decode(0, 4);
    lemma_le_bytes_decode(time, 8);
    assert(b.subrange(0, 4) =~= code);
    assert(b.subrange(2008, 2016) =~= le_bytes(time, 8));
    assert forall|j: int| 0 <= j < MAX_SYSCALL_NUM implies le_value(
        #[trigger] b.subrange(4 + 4 * j, 8 + 4 * j),
    ) == times[j] by {
        lemma_u32s_le_field(times, j);
        lemma_le_bytes_decode(times[j] as nat, 4);
        assert(b.subrange(4 + 4 * j, 8 + 4 * j) =~= counts.subrange(4 * j, 4 * j + 4));
    }
}

/// The fields of what `get_time` writes read back, each as a little-endian
/// number: bytes `0..8` give the seconds and bytes `8..16` the microseconds,
/// whole (each below 2^64).
pub proof fn lemma_time_val_fields(sec: nat, usec: nat)
    requires
        sec < 0x1_0000_0000_0000_0000,
        usec < 0x1_0000_0000_0000_0000,
    ensures
        time_val_layout(sec, usec).len() == TIME_VAL_SIZE,
        le_value(time_val_layout(sec, usec).subrange(0, 8)) == sec,
        le_value(time_val_layout(sec, usec).subrange(8, 16)) == usec,
{
    reveal_with_fuel(pow256, 9);
    lemma_le_bytes_decode(sec, 8);
    lemma_le_bytes_decode(usec, 8);
    assert(time_val_layout(sec, usec).subrange(0, 8) =~= le_bytes(sec, 8));
    assert(time_val_layout(sec, usec).subrange(8, 16) =~= le_bytes(usec, 8));
}


/// What `mmap` accepts, in plain terms: a start aligned to 4096 bytes and
/// below `0x8800_0000`, a protection from 1 to 7, and no valid entry among
/// the pages from `start / 4096` up to (not including) the first page at or
/// above `start + len` (the address cut to 39 bits). Pages outside that range
/// play no part.
pub proof fn lemma_mmap_acceptance(tm: TaskManager, start: usize, len: usize, port: usize)
    ensures
        mmap_accepts(&tm, start, len, port) <==> {
            &&& start % 4096 == 0
            &&& 1 <= port <= 7
            &&& start < 0x8800_0000
            &&& forall|v: usize|
                start / 4096 <= v < ((start + len) % 0x80_0000_0000 + 4095) / 4096 ==> !(
                #[trigger] tm.cur().memory_set.page_table@.contains_key(v)
                    && tm.cur().memory_set.page_table@[v].bits % 2 == 1)
        },
{
    let ms = tm.cur().memory_set;
    let lo = start / 4096;
    let hi = ((start + len) % 0x80_0000_0000 + 4095) / 4096;
    if start < 0x8800_0000 {
        assert(start as int % va_limit() == start);
        lemma_vpn_ceil_value(start as int);
        lemma_vpn_ceil_value((start + len) % va_limit());
        assert(page_span(start, len).0 == lo && page_span(start, len).1 == hi);
        if mmap_accepts(&tm, start, len, port) {
            assert forall|v: usize| lo <= v < hi implies !(#[trigger] ms.page_table@.contains_key(v)
                && ms.page_table@[v].bits % 2 == 1) by {
                assert(!ms.maps(v));
            }
        }
        if mmap_args_ok(start, port) && forall|v: usize| lo <= v < hi ==> !(
            #[trigger] ms.page_table@.contains_key(v) && ms.page_table@[v].bits % 2 == 1) {
            assert forall|v: usize| lo <= v < hi implies !#[trigger] ms.maps(v) by {
                assert(!(ms.page_table@.contains_key(v) && ms.page_table@[v].bits % 2 == 1));
            }
        }
    }
}

/// The page `v` of `ms` has a valid entry, the low bit of its entry set.
pub open spec fn valid_at(ms: MemorySet, v: usize) -> bool {
    ms.page_table@.contains_key(v) && ms.page_table@[v].bits % 2 == 1
}

/// The page `v` has in `new` the entry and the frame it has in `old`.
pub open spec fn unchanged_at(new: MemorySet, old: MemorySet, v: usize) -> bool {
    &&& new.page_table@.contains_key(v) == old.page_table@.contains_key(v)
    &&& old.page_table@.contains_key(v) ==> new.page_table@[v] == old.page_table@[v]
    &&& new.frames@.contains_key(v) == old.frames@.contains_key(v)
    &&& old.frames@.contains_key(v) ==> new.frames@[v] == old.frames@[v]
}

/// The page `v` of `ms` has an empty entry and no frame.
pub open spec fn cleared_at(ms: MemorySet, v: usize) -> bool {
    &&& ms.page_table@.contains_key(v)
    &&& ms.page_table@[v].bits == 0
    &&& !ms.frames@.contains_key(v)
}

/// The page `v` of `ms` has an entry with the flag bits `flags` that points
/// at some frame, and that frame holds 4096 zero bytes.
pub open spec fn zero_page_at(ms: MemorySet, v: usize, flags: u8) -> bool {
    &&& ms.page_table@.contains_key(v)
    &&& exists|p: usize| ms.page_table@[v] == #[trigger] PageTableEntry::of(p as int, flags)
    &&& ms.frames@.contains_key(v)
    &&& ms.frames@[v]@.len() == 4096
    &&& forall|i: int| 0 <= i < 4096 ==> ms.frames@[v]@[i] == 0
}

/// What an accepted `mmap` maps: after `mmap` of `[start, start + len)` with
/// the protection `port` (`t1` to `t2`), each page from `start / 4096` up to
/// the first page at or above `start + len` has an entry whose flags are the
/// protection shifted up one bit, the user bit and the valid bit
/// (`2 * port + 0x11`), pointing at a frame whose bytes are all zero; every
/// other page keeps its entry and its frame.
#[verifier::spinoff_prover]
pub proof fn lemma_mmap_permission(t1: TaskManager, t2: TaskManager, start: usize, len: usize, port: usize)
    requires
        mmap_accepts(&t1, start, len, port),
        start + len <= usize::MAX,
        t2.area_mapped(
            &t1,
            VirtAddr((start as int % va_limit()) as usize),
            VirtAddr(((start + len) % va_limit()) as usize),
            MapPermission { bits: (2 * port) as u8 },
        ),
    ensures
        forall|v: usize|
            start / 4096 <= v < ((start + len) % 0x80_0000_0000 + 4095) / 4096 ==> #[trigger] zero_page_at(
                t2.cur().memory_set,
                v,
                (2 * port + 0x11) as u8,
            ),
        forall|v: usize|
            !(start / 4096 <= v < ((start + len) % 0x80_0000_0000 + 4095) / 4096) ==> #[trigger] unchanged_at(
                t2.cur().memory_set,
                t1.cur().memory_set,
                v,
            ),
{
    let lo = start / 4096;
    let hi = ((start + len) % 0x80_0000_0000 + 4095) / 4096;
    assert(start as int % va_limit() == start);
    let sv = VirtAddr((start as int % va_limit()) as usize);
    let ev = VirtAddr(((start + len) % va_limit()) as usize);
    assert(0 <= (start + len) % va_limit() <= start + len);
    lemma_vpn_ceil_value(sv.0 as int);
    lemma_vpn_ceil_value(ev.0 as int);
    assert(vpn_floor(sv.0 as int) == lo && vpn_ceil(ev.0 as int) == hi);
    let b: u8 = (2 * port) as u8;
    assert(b == 2 * port);
    let perm = MapPermission { bits: b | 0x10 };
    assert(b < 16 && b % 2 == 0 ==> (b | 0x10u8) | 1u8 == b + 17) by (bit_vector);
    assert(perm.bits | PTE_V == (2 * port + 0x11) as u8);
    let s0 = t1.cur().memory_set.pt_state(t1.frame_allocator.state());
    lemma_map_all_entries(s0, lo as int, hi as int, perm);
    let ms = t2.cur().memory_set;
    assert(ms.page_table@ == map_all(s0, lo as int, hi as int, perm).ptes);
    assert forall|v: usize| lo <= v < hi implies #[trigger] zero_page_at(ms, v, (2 * port + 0x11) as u8) by {
        assert(ms.fresh_in(lo as int, hi as int));
        assert(ms.maps(v));
        assert(ms.page(v) == zero_page());
        let q = choose|q: usize| map_all(s0, lo as int, hi as int, perm).ptes[v] == PageTableEntry::of(
            q as int,
            perm.bits | PTE_V,
        );
        assert(ms.page_table@[v] == PageTableEntry::of(q as int, (2 * port + 0x11) as u8));
    }
    let m1 = t1.cur().memory_set;
    assert forall|v: usize| !(lo <= v < hi) implies #[trigger] unchanged_at(ms, m1, v) by {
        assert(ms.ptes().contains_key(v) == m1.ptes().contains_key(v));
        assert(ms.frames@.contains_key(v) == m1.frames@.contains_key(v));
        if m1.ptes().contains_key(v) {
            assert(ms.ptes()[v] == m1.ptes()[v]);
        }
        if m1.frames@.contains_key(v) {
            assert(ms.frames@[v] == m1.frames@[v]);
        }
    }
}

/// What `munmap` does to the pages, in plain terms. Let the range be the
/// pages from `(start mod 2^39) / 4096` up to the first page at or above
/// `(start + len) mod 2^39`. Every page outside the range keeps its entry and
/// its frame. `munmap` returns 0 exactly when every page of the range had a
/// valid entry, and -1 otherwise. A page of the range is cleared (empty entry,
/// no frame) when it and every page before it in the range had a valid entry;
/// from the first page without one on, the pages are left as they were.
#[verifier::spinoff_prover]
pub proof fn lemma_munmap_range(t1: TaskManager, t2: TaskManager, start: usize, len: usize, r: isize)
    requires
        t2.area_unmapped(&t1, start, len, r),
    ensures
        forall|v: usize|
            !((start as int % 0x80_0000_0000) / 4096 <= v < ((start + len) % 0x80_0000_0000 + 4095) / 4096)
                ==> #[trigger] unchanged_at(t2.cur().memory_set, t1.cur().memory_set, v),
        r == 0 || r == -1,
        (r == 0) == forall|v: usize|
            (start as int % 0x80_0000_0000) / 4096 <= v < ((start + len) % 0x80_0000_0000 + 4095) / 4096
                ==> #[trigger] valid_at(t1.cur().memory_set, v),
        forall|v: usize|
            (start as int % 0x80_0000_0000) / 4096 <= v < ((start + len) % 0x80_0000_0000 + 4095) / 4096
                && (forall|u: usize|
                (start as int % 0x80_0000_0000) / 4096 <= u <= v ==> #[trigger] valid_at(t1.cur().memory_set, u))
                ==> #[trigger] cleared_at(t2.cur().memory_set, v),
        forall|v: usize, u: usize|
            (start as int % 0x80_0000_0000) / 4096 <= u <= v < ((start + len) % 0x80_0000_0000 + 4095) / 4096
                && !#[trigger] valid_at(t1.cur().memory_set, u)
                ==> #[trigger] unchanged_at(t2.cur().memory_set, t1.cur().memory_set, v),
{
    let m1 = t1.cur().memory_set;
    let m2 = t2.cur().memory_set;
    let lo = (start as int % 0x80_0000_0000) / 4096;
    let hi = ((start + len) % 0x80_0000_0000 + 4095) / 4096;
    lemma_vpn_ceil_value(start as int % va_limit());
    lemma_vpn_ceil_value((start + len) % va_limit());
    assert(vpn_floor(start as int % va_limit()) == lo);
    assert(vpn_ceil((start + len) % va_limit()) == hi);
    let gap = m1.first_unmapped(lo, hi);
    lemma_first_unmapped_props(m1, lo, hi);
    assert forall|v: usize| !(lo <= v < gap) implies #[trigger] unchanged_at(m2, m1, v) by {
        assert(m2.ptes().contains_key(v) == m1.ptes().contains_key(v));
        assert(m2.frames@.contains_key(v) == m1.frames@.contains_key(v));
        if m1.ptes().contains_key(v) {
            assert(m2.ptes()[v] == m1.ptes()[v]);
        }
        if m1.frames@.contains_key(v) {
            assert(m2.frames@[v] == m1.frames@[v]);
        }
    }
    assert forall|v: usize| !(lo <= v < hi) implies #[trigger] unchanged_at(m2, m1, v) by {
        assert(!(lo <= v < gap));
    }
    if gap < hi {
        assert(lo <= gap);
        assert(!m1.maps(gap as usize));
        assert(!valid_at(m1, gap as usize));
    } else {
        assert forall|v: usize| lo <= v < hi implies #[trigger] valid_at(m1, v) by {
            assert(m1.maps(v));
        }
    }
    assert forall|v: usize|
        lo <= v < hi && (forall|u: usize| lo <= u <= v ==> #[trigger] valid_at(m1, u)) implies #[trigger] cleared_at(
        m2,
        v,
    ) by {
        if gap <= v {
            assert(lo <= gap < hi);
            assert(valid_at(m1, gap as usize));
            assert(m1.maps(gap as usize));
        }
        assert(m2.cleared_in(lo, gap));
        assert(m2.ptes().contains_key(v));
    }
    assert forall|v: usize, u: usize|
        lo <= u <= v < hi && !#[trigger] valid_at(m1, u) implies #[trigger] unchanged_at(m2, m1, v) by {
        if u < gap {
            assert(m1.maps(u));
        }
        assert(!(lo <= v < gap));
    }
}

/// What `task_info` reports, in plain terms, for a task `t` that first ran
/// at `s <= now`: it refuses (time 0) exactly when `s == now`; otherwise the
/// record it writes has `TASK_INFO_SIZE` bytes, whose first four read, little
/// endian, as 2 (running), whose four bytes at `4 + 4j` read as the task's
/// count of the system call `j`, and whose eight bytes at 2008 read as
/// `now - s`, the milliseconds since the task first ran.
pub proof fn lemma_task_info_report(t: TaskControlBlock, now: usize)
    requires
        t.syscall_times@.len() == MAX_SYSCALL_NUM,
        t.first_lauch_time matches Some(s) && s <= now,
    ensures
        (run_time(t, now) == 0) == (t.first_lauch_time == Some(now)),
        task_info_of(t, now).len() == TASK_INFO_SIZE,
        le_value(task_info_of(t, now).subrange(0, 4)) == 2,
        forall|j: int|
            0 <= j < MAX_SYSCALL_NUM ==> le_value(#[trigger] task_info_of(t, now).subrange(4 + 4 * j, 8 + 4 * j))
                == t.syscall_times@[j],
        le_value(task_info_of(t, now).subrange(2008, 2016)) == now - t.first_lauch_time.unwrap(),
{
    let time = run_time(t, now);
    assert(0 <= time <= usize::MAX);
    lemma_task_info_fields(TaskStatus::Running, t.syscall_times@, time as nat);
}

/// What `get_time` writes, in plain terms: 16 bytes, whose last eight read,
/// little endian, as a number below 1_000_000, and whose first eight read as
/// a number that, times 1_000_000 plus the last, is the time `us` itself.
pub proof fn lemma_get_time_value(us: usize)
    ensures
        time_val_of(us).len() == TIME_VAL_SIZE,
        le_value(time_val_of(us).subrange(8, 16)) < 1_000_000,
        le_value(time_val_of(us).subrange(0, 8)) * 1_000_000 + le_value(time_val_of(us).subrange(8, 16))
            == us,
{
    assert(us == (us / 1_000_000) * 1_000_000 + us % 1_000_000);
    lemma_time_val_fields((us / 1_000_000) as nat, (us % 1_000_000) as nat);
}

/// What `sbrk` does, in plain terms. With the break at `b` and the heap's
/// bottom at `h`, moving the break by `size` is refused exactly when
/// `b + size < h`, and then nothing changes. Otherwise the old break `b` is
/// returned and the break becomes `b + size`. Let `e` be the first page at or
/// above `b` and `e2` the first at or above `b + size`: a move up gives each
/// page of `[e, e2)` an entry with read, write, user and valid bits (`0x17`)
/// pointing at a zeroed frame; a move down clears each page of `[e2, e)`.
/// Every other page keeps its entry and its frame.
#[verifier::spinoff_prover]
pub proof fn lemma_sbrk_pages(t1: TaskManager, t2: TaskManager, size: i32, r: Option<usize>)
    requires
        t1.wf(),
        t2.wf(),
        t2.brk_changed(&t1, size, r),
    ensures
        (r is None) == (t1.cur().program_brk + size < t1.cur().heap_bottom),
        r is None ==> t2.cur().program_brk == t1.cur().program_brk && t2.cur().memory_set
            == t1.cur().memory_set,
        r is Some ==> r == Some(t1.cur().program_brk) && t2.cur().program_brk == t1.cur().program_brk
            + size,
        r is Some && size >= 0 ==> forall|v: usize|
            (t1.cur().program_brk + 4095) / 4096 <= v < (t1.cur().program_brk + size + 4095) / 4096
                ==> #[trigger] zero_page_at(t2.cur().memory_set, v, 0x17),
        r is Some && size < 0 ==> forall|v: usize|
            (t1.cur().program_brk + size + 4095) / 4096 <= v < (t1.cur().program_brk + 4095) / 4096
                ==> #[trigger] cleared_at(t2.cur().memory_set, v),
        r is Some ==> forall|v: usize|
            !((t1.cur().program_brk + 4095) / 4096 <= v < (t1.cur().program_brk + size + 4095) / 4096)
                && !((t1.cur().program_brk + size + 4095) / 4096 <= v < (t1.cur().program_brk + 4095) / 4096)
                ==> #[trigger] unchanged_at(t2.cur().memory_set, t1.cur().memory_set, v),
{
    assert(t1.tasks@[t1.current_task as int].wf());
    assert(t2.tasks@[t2.current_task as int].wf());
    let c1 = t1.cur();
    let c2 = t2.cur();
    let m1 = c1.memory_set;
    let m2 = c2.memory_set;
    let b = c1.program_brk as int;
    let nb = b + size;
    let e = (b + 4095) / 4096;
    let e2 = (nb + 4095) / 4096;
    lemma_vpn_ceil_value(b);
    if r is Some {
        lemma_vpn_ceil_value(nb);
        let a1 = t1.frame_allocator.state();
        let a2 = t2.frame_allocator.state();
        if size >= 0 {
            assert(c2.heap_grown(&c1, e, e2, a1, a2));
            let perm = heap_permission();
            let s0 = m1.pt_state(a1);
            lemma_map_all_entries(s0, e, e2, perm);
            assert(m2.page_table@ == map_all(s0, e, e2, perm).ptes);
            assert(0x16u8 | 1u8 == 0x17u8) by (bit_vector);
            assert forall|v: usize| e <= v < e2 implies #[trigger] zero_page_at(m2, v, 0x17) by {
                assert(m2.fresh_in(e, e2));
                assert(m2.maps(v));
                assert(m2.page(v) == zero_page());
                let q = choose|q: usize| map_all(s0, e, e2, perm).ptes[v] == PageTableEntry::of(
                    q as int,
                    perm.bits | PTE_V,
                );
                assert(m2.page_table@[v] == PageTableEntry::of(q as int, 0x17));
            }
            assert forall|v: usize| !(e <= v < e2) && !(e2 <= v < e) implies #[trigger] unchanged_at(m2, m1, v) by {
                assert(m2.ptes().contains_key(v) == m1.ptes().contains_key(v));
                assert(m2.frames@.contains_key(v) == m1.frames@.contains_key(v));
                if m1.ptes().contains_key(v) {
                    assert(m2.ptes()[v] == m1.ptes()[v]);
                }
                if m1.frames@.contains_key(v) {
                    assert(m2.frames@[v] == m1.frames@[v]);
                }
            }
        } else {
            assert(c2.heap_shrunk(&c1, e2, e, a1, a2));
            assert forall|v: usize| e2 <= v < e implies #[trigger] cleared_at(m2, v) by {
                assert(m2.cleared_in(e2, e));
                assert(m2.ptes().contains_key(v));
            }
            assert forall|v: usize| !(e <= v < e2) && !(e2 <= v < e) implies #[trigger] unchanged_at(m2, m1, v) by {
                assert(m2.ptes().contains_key(v) == m1.ptes().contains_key(v));
                assert(m2.frames@.contains_key(v) == m1.frames@.contains_key(v));
                if m1.ptes().contains_key(v) {
                    assert(m2.ptes()[v] == m1.ptes()[v]);
                }
                if m1.frames@.contains_key(v) {
                    assert(m2.frames@[v] == m1.frames@[v]);
                }
            }
        }
    }
}

} // verus!
