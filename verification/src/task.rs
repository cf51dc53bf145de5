//! Task management: the control block of each task, and the task manager that
//! tracks which task runs and picks the next one.
use vstd::prelude::*;
use crate::config::{MAX_SYSCALL_NUM, PAGE_SIZE};
use crate::trap::TrapContext;
use vstd::hash_map::HashMapWithView;
use crate::mm::{
    AllocState, FrameAllocator, MemorySet, MapPermission, PageTableEntry, VirtAddr, VirtPageNum,
    available, dealloc_spec, leaf_entry, map_all, map_all_fits, vpn_ceil, vpn_floor, va_limit,
    zero_page, lemma_fresh_in_extend,
};

verus! {

/// The state of a task in its life cycle.
#[derive(Clone, Copy, Debug, PartialEq, Eq, Structural)]
pub enum TaskStatus {
    UnInit,
    Ready,
    Running,
    Exited,
}

/// The control block of a task.
pub struct TaskControlBlock {
    /// Where the task is in its life cycle.
    pub task_status: TaskStatus,
    /// How often the task has made each system call.
    pub syscall_times: [u32; MAX_SYSCALL_NUM],
    /// The time, in milliseconds, at which the task first ran.
    pub first_lauch_time: Option<usize>,
    /// The task's user address space.
    pub memory_set: MemorySet,
    /// The lowest address of the task's heap.
    pub heap_bottom: usize,
    /// The end of the task's heap (its program break).
    pub program_brk: usize,
    /// The registers saved when the task last trapped into the kernel.
    pub trap_cx: TrapContext,
    /// The frames of the heap's pages, by page.
    pub heap_frames: HashMapWithView<usize, usize>,
}

/// The permission of the pages of a task's heap: read, write and user.
pub open spec fn heap_permission() -> MapPermission {
    MapPermission { bits: 0x16 }
}

impl TaskControlBlock {
    /// The counters have one slot per system call, the address space is
    /// consistent, and the break lies between the heap's bottom and `isize::MAX`.
    pub open spec fn wf(&self) -> bool {
        &&& self.syscall_times@.len() == MAX_SYSCALL_NUM
        &&& self.memory_set.wf()
        &&& self.heap_bottom <= self.program_brk <= isize::MAX
    }

    /// The break after moving it by `size` bytes.
    pub open spec fn brk_target(&self, size: i32) -> int {
        self.program_brk + size
    }

    /// Moving the break by `size` does not fault, with the frame allocator in
    /// the state `alloc`: the pages that a move up maps are not yet mapped and
    /// the allocator has the frames they take; the pages that a move down
    /// unmaps are mapped and their frames can be given back.
    pub open spec fn brk_move_ok(&self, size: i32, alloc: AllocState) -> bool {
        let new = self.brk_target(size);
        let old_end = vpn_ceil(self.program_brk as int);
        let new_end = vpn_ceil(new);
        new >= self.heap_bottom ==> {
            &&& size < 0 ==> {
                &&& forall|v: usize| new_end <= v < old_end ==> #[trigger] self.memory_set.maps(v)
                &&& dealloc_all_ok(alloc, self.heap_frames@, new_end, old_end)
            }
            &&& size >= 0 ==> {
                &&& forall|v: usize| old_end <= v < new_end ==> !#[trigger] self.memory_set.maps(v)
                &&& map_all_fits(self.memory_set.pt_state(alloc), old_end, new_end, heap_permission())
            }
        }
    }

    /// A task that has not yet run, with the address space `memory_set`, a
    /// heap that starts, empty, at the page boundary `heap_bottom`, and the
    /// trap context `trap_cx`.
    pub fn new(memory_set: MemorySet, heap_bottom: usize, trap_cx: TrapContext) -> (r: TaskControlBlock)
        requires
            memory_set.wf(),
            heap_bottom <= isize::MAX,
            heap_bottom % PAGE_SIZE == 0,
        ensures
            r.wf(),
            r.task_status == TaskStatus::Ready,
            forall|i: int| 0 <= i < MAX_SYSCALL_NUM ==> #[trigger] r.syscall_times@[i] == 0,
            r.first_lauch_time is None,
            r.memory_set == memory_set,
            r.heap_bottom == heap_bottom,
            r.program_brk == heap_bottom,
            r.trap_cx == trap_cx,
            r.heap_frames@ == Map::<usize, usize>::empty(),
    {
        TaskControlBlock {
            task_status: TaskStatus::Ready,
            syscall_times: [0u32; MAX_SYSCALL_NUM],
            first_lauch_time: None,
            memory_set,
            heap_bottom,
            program_brk: heap_bottom,
            trap_cx,
            heap_frames: HashMapWithView::new(),
        }
    }

    /// The `satp` value of the task's address space.
    pub fn get_user_token(&self) -> (r: u64)
        requires
            self.wf(),
        ensures
            r == 0x8000_0000_0000_0000 + self.memory_set.root_ppn,
    {
        self.memory_set.token()
    }

    /// `self` is `old` after its break was moved by `size` bytes with the
    /// result `r`, the frame allocator going from `a0` to `a1`. A move below
    /// the heap's bottom is refused and changes nothing. Else the old break is
    /// returned; a move down unmaps the pages between the new and the old end
    /// of the heap, giving their heap frames back in turn; a move up maps the
    /// pages between the old and the new end with the heap's permission, in
    /// turn (see `map_all`), and records their frames as heap frames.
    pub open spec fn brk_moved(
        &self,
        old: &TaskControlBlock,
        size: i32,
        r: Option<usize>,
        a0: AllocState,
        a1: AllocState,
    ) -> bool {
        let new_brk = old.brk_target(size);
        let old_end = vpn_ceil(old.program_brk as int);
        let new_end = vpn_ceil(new_brk);
        &&& self.task_status == old.task_status
        &&& self.syscall_times == old.syscall_times
        &&& self.first_lauch_time == old.first_lauch_time
        &&& self.heap_bottom == old.heap_bottom
        &&& self.trap_cx == old.trap_cx
        &&& new_brk < old.heap_bottom ==> {
            &&& r is None
            &&& self.program_brk == old.program_brk
            &&& self.memory_set == old.memory_set
            &&& self.heap_frames@ == old.heap_frames@
            &&& a1 == a0
        }
        &&& new_brk >= old.heap_bottom ==> {
            &&& r == Some(old.program_brk)
            &&& self.program_brk == new_brk
            &&& size < 0 ==> self.heap_shrunk(old, new_end, old_end, a0, a1)
            &&& size >= 0 ==> self.heap_grown(old, old_end, new_end, a0, a1)
        }
    }

    /// `self` is `old` with the heap's pages `[lo, hi)` unmapped, their heap
    /// frames given back in turn (the allocator going from `a0` to `a1`) and
    /// no longer recorded.
    pub open spec fn heap_shrunk(&self, old: &TaskControlBlock, lo: int, hi: int, a0: AllocState, a1: AllocState) -> bool {
        &&& self.memory_set.same_outside(&old.memory_set, lo, hi)
        &&& self.memory_set.cleared_in(lo, hi)
        &&& self.memory_set.same_tables(&old.memory_set)
        &&& a1 == dealloc_all(a0, old.heap_frames@, lo, hi)
        &&& forall|v: usize| #[trigger] self.heap_frames@.contains_key(v)
            == (old.heap_frames@.contains_key(v) && !(lo <= v < hi))
        &&& forall|v: usize| #[trigger] self.heap_frames@.contains_key(v)
            ==> self.heap_frames@[v] == old.heap_frames@[v]
    }

    /// `self` is `old` with the pages `[lo, hi)` mapped in turn with the
    /// heap's permission (see `map_all`; the allocator going from `a0` to
    /// `a1`), each to a zeroed frame recorded as its heap frame (see `heap_fresh`).
    pub open spec fn heap_grown(&self, old: &TaskControlBlock, lo: int, hi: int, a0: AllocState, a1: AllocState) -> bool {
        &&& self.memory_set.same_outside(&old.memory_set, lo, hi)
        &&& self.memory_set.fresh_in(lo, hi)
        &&& self.memory_set.pt_state(a1) == map_all(old.memory_set.pt_state(a0), lo, hi, heap_permission())
        &&& forall|v: usize| !(lo <= v < hi) ==> #[trigger] self.heap_frames@.contains_key(v)
            == old.heap_frames@.contains_key(v)
        &&& forall|v: usize| !(lo <= v < hi) && old.heap_frames@.contains_key(v)
            ==> #[trigger] self.heap_frames@[v] == old.heap_frames@[v]
        &&& heap_fresh(self.heap_frames@, self.memory_set.ptes(), a1, lo, hi)
    }

    /// Moves the break by `size` bytes (see `brk_moved`).
    pub fn change_program_brk(&mut self, fa: &mut FrameAllocator, size: i32) -> (r: Option<usize>)
        requires
            old(self).wf(),
            old(fa).wf(),
            old(self).brk_target(size) <= isize::MAX,
            old(self).brk_move_ok(size, old(fa).state()),
        ensures
            final(self).wf(),
            final(fa).wf(),
            final(self).brk_moved(old(self), size, r, old(fa).state(), final(fa).state()),
    {
        let old_break = self.program_brk;
        let new_brk: isize = self.program_brk as isize + size as isize;
        if new_brk < self.heap_bottom as isize {
            return None;
        }
        let new_end = VirtAddr(new_brk as usize).ceil();
        let old_end = VirtAddr(old_break).ceil();
        let ghost hf0 = self.heap_frames@;
        let ghost a0 = fa.state();
        if size < 0 {
            let ghost lo = new_end.0 as int;
            let ghost hi = old_end.0 as int;
            let mut v = new_end.0;
            while v < old_end.0
                invariant
                    lo <= v <= hi,
                    hi == old_end.0,
                    self.memory_set.wf(),
                    fa.wf(),
                    self.memory_set.same_outside(&old(self).memory_set, lo, hi),
                    self.memory_set.cleared_in(lo, v as int),
                    self.memory_set.same_tables(&old(self).memory_set),
                    forall|u: usize| v <= u < hi ==> #[trigger] self.memory_set.ptes().contains_key(u)
                        == old(self).memory_set.ptes().contains_key(u),
                    forall|u: usize| v <= u < hi && old(self).memory_set.ptes().contains_key(u)
                        ==> #[trigger] self.memory_set.ptes()[u] == old(self).memory_set.ptes()[u],
                    forall|u: usize| v <= u < hi ==> #[trigger] old(self).memory_set.maps(u),
                    dealloc_all(fa.state(), hf0, v as int, hi) == dealloc_all(a0, hf0, lo, hi),
                    dealloc_all_ok(fa.state(), hf0, v as int, hi),
                    forall|u: usize| #[trigger] self.heap_frames@.contains_key(u)
                        == (hf0.contains_key(u) && !(lo <= u < v)),
                    forall|u: usize| #[trigger] self.heap_frames@.contains_key(u)
                        ==> self.heap_frames@[u] == hf0[u],
                    self.program_brk == old(self).program_brk,
                    self.heap_bottom == old(self).heap_bottom,
                    self.task_status == old(self).task_status,
                    self.syscall_times == old(self).syscall_times,
                    self.first_lauch_time == old(self).first_lauch_time,
                    self.trap_cx == old(self).trap_cx,
                decreases hi - v,
            {
                assert(self.heap_frames@.contains_key(v));
                let ppn = *self.heap_frames.get(&v).unwrap();
                fa.dealloc_frame(ppn);
                let _ = self.heap_frames.remove(&v);
                assert(old(self).memory_set.maps(v));
                assert(self.memory_set.maps(v));
                self.memory_set.unmap_one(VirtPageNum(v));
                v = v + 1;
            }
        } else {
            let perm = MapPermission { bits: 0x16 };
            let ghost lo = old_end.0 as int;
            let ghost hi = new_end.0 as int;
            let ghost s0 = old(self).memory_set.pt_state(a0);
            let mut v = old_end.0;
            while v < new_end.0
                invariant
                    lo <= v <= hi,
                    hi == new_end.0,
                    perm == heap_permission(),
                    self.memory_set.wf(),
                    fa.wf(),
                    self.memory_set.same_outside(&old(self).memory_set, lo, hi),
                    self.memory_set.fresh_in(lo, v as int),
                    forall|u: usize| v <= u < hi ==> #[trigger] self.memory_set.ptes().contains_key(u)
                        == old(self).memory_set.ptes().contains_key(u),
                    forall|u: usize| v <= u < hi && old(self).memory_set.ptes().contains_key(u)
                        ==> #[trigger] self.memory_set.ptes()[u] == old(self).memory_set.ptes()[u],
                    forall|u: usize| v <= u < hi ==> !#[trigger] old(self).memory_set.maps(u),
                    map_all(self.memory_set.pt_state(fa.state()), v as int, hi, perm) == map_all(s0, lo, hi, perm),
                    map_all_fits(self.memory_set.pt_state(fa.state()), v as int, hi, perm),
                    forall|u: usize| !(lo <= u < v) ==> #[trigger] self.heap_frames@.contains_key(u)
                        == hf0.contains_key(u),
                    forall|u: usize| !(lo <= u < v) && hf0.contains_key(u)
                        ==> #[trigger] self.heap_frames@[u] == hf0[u],
                    heap_fresh(self.heap_frames@, self.memory_set.ptes(), fa.state(), lo, v as int),
                    self.program_brk == old(self).program_brk,
                    self.heap_bottom == old(self).heap_bottom,
                    self.task_status == old(self).task_status,
                    self.syscall_times == old(self).syscall_times,
                    self.first_lauch_time == old(self).first_lauch_time,
                    self.trap_cx == old(self).trap_cx,
                decreases hi - v,
            {
                assert(!old(self).memory_set.maps(v));
                assert(!self.memory_set.maps(v));
                let ghost fa_before = fa.state();
                let ghost ms_before: MemorySet = self.memory_set;
                let ghost hf_before = self.heap_frames@;
                let ppn = self.memory_set.map_one(fa, VirtPageNum(v), perm);
                self.heap_frames.insert(v, ppn);
                proof {
                    lemma_fresh_in_extend(ms_before, self.memory_set, lo, v as int);
                    lemma_heap_fresh_extend(
                        hf_before,
                        ms_before.ptes(),
                        fa_before,
                        self.heap_frames@,
                        self.memory_set.ptes(),
                        fa.state(),
                        lo,
                        v as int,
                        ppn,
                    );
                }
                v = v + 1;
            }
        }
        self.program_brk = new_brk as usize;
        proof {
            let lo = vpn_ceil(new_brk as int);
            let hi = vpn_ceil(old_break as int);
            if size < 0 {
                assert(self.heap_shrunk(old(self), lo, hi, a0, fa.state()));
            } else {
                assert(self.heap_grown(old(self), hi, lo, a0, fa.state()));
            }
        }
        Some(old_break)
    }
}

/// The heap frames `hf` of the pages `[lo, hi)`: each page is mapped with the
/// heap's permission to its heap frame, a frame that the allocator `a` has
/// handed out and not taken back, and no two of these pages share a frame.
pub open spec fn heap_fresh(
    hf: Map<usize, usize>,
    ptes: Map<usize, PageTableEntry>,
    a: AllocState,
    lo: int,
    hi: int,
) -> bool {
    &&& forall|u: usize| lo <= u < hi ==> {
        &&& #[trigger] hf.contains_key(u)
        &&& ptes.contains_key(u)
        &&& ptes[u] == leaf_entry(heap_permission(), hf[u] as int)
        &&& hf[u] < a.current
        &&& !a.recycled.contains(hf[u])
    }
    &&& forall|u: usize, w: usize| lo <= u < hi && lo <= w < hi && u != w
        ==> #[trigger] hf[u] != #[trigger] hf[w]
}

/// Mapping the heap page `v` to a frame `r` that the allocator handed out
/// from `a0` (so not a frame recorded before) keeps `heap_fresh` one page further.
proof fn lemma_heap_fresh_extend(
    hf0: Map<usize, usize>,
    ptes0: Map<usize, PageTableEntry>,
    a0: AllocState,
    hf1: Map<usize, usize>,
    ptes1: Map<usize, PageTableEntry>,
    a1: AllocState,
    lo: int,
    v: int,
    r: usize,
)
    requires
        lo <= v,
        0 <= v <= usize::MAX,
        heap_fresh(hf0, ptes0, a0, lo, v),
        hf1 == hf0.insert(v as usize, r),
        forall|u: usize| lo <= u < v ==> #[trigger] ptes1.contains_key(u) == ptes0.contains_key(u),
        forall|u: usize| lo <= u < v && ptes0.contains_key(u) ==> #[trigger] ptes1[u] == ptes0[u],
        ptes1.contains_key(v as usize),
        ptes1[v as usize] == leaf_entry(heap_permission(), r as int),
        a1.current >= a0.current,
        forall|x: usize| #[trigger] a1.recycled.contains(x) ==> a0.recycled.contains(x),
        r < a1.current,
        !a1.recycled.contains(r),
        a0.recycled.contains(r) || r >= a0.current,
    ensures
        heap_fresh(hf1, ptes1, a1, lo, v + 1),
{
    assert forall|u: usize| lo <= u < v + 1 implies {
        &&& #[trigger] hf1.contains_key(u)
        &&& ptes1.contains_key(u)
        &&& ptes1[u] == leaf_entry(heap_permission(), hf1[u] as int)
        &&& hf1[u] < a1.current
        &&& !a1.recycled.contains(hf1[u])
    } by {
        if u < v {
            assert(hf0.contains_key(u));
            assert(ptes0.contains_key(u));
            if a1.recycled.contains(hf0[u]) {
                assert(a0.recycled.contains(hf0[u]));
            }
        }
    }
    assert forall|u: usize, w: usize| lo <= u < v + 1 && lo <= w < v + 1 && u != w
        implies #[trigger] hf1[u] != #[trigger] hf1[w] by {
        if u < v {
            assert(hf0.contains_key(u));
        }
        if w < v {
            assert(hf0.contains_key(w));
        }
        if u < v && w < v {
            assert(hf0[u] != hf0[w]);
        }
    }
}

/// Giving back in turn the heap frames `hf` of the pages `[v, hi)` never
/// gives back a frame not handed out, or one given back already.
pub open spec fn dealloc_all_ok(s: AllocState, hf: Map<usize, usize>, v: int, hi: int) -> bool
    decreases hi - v,
{
    v >= hi || {
        &&& hf.contains_key(v as usize)
        &&& hf[v as usize] < s.current
        &&& !s.recycled.contains(hf[v as usize])
        &&& dealloc_all_ok(dealloc_spec(s, hf[v as usize]), hf, v + 1, hi)
    }
}

/// The allocator after the heap frames `hf` of the pages `[v, hi)` are given back in turn.
pub open spec fn dealloc_all(s: AllocState, hf: Map<usize, usize>, v: int, hi: int) -> AllocState
    decreases hi - v,
{
    if v >= hi {
        s
    } else {
        dealloc_all(dealloc_spec(s, hf[v as usize]), hf, v + 1, hi)
    }
}

/// The task `k` places after `cur` in the circular order of `n` tasks
/// (`1 <= k <= n`, and the `n`-th place is `cur` itself).
pub open spec fn circ(cur: int, k: int, n: int) -> int {
    if cur + k < n { cur + k } else { cur + k - n }
}

/// The launch time of a task that starts to run at `now`: the time it first
/// ran, if it has run before.
pub open spec fn launched_at(first: Option<usize>, now: usize) -> Option<usize> {
    match first {
        Some(t) => Some(t),
        None => Some(now),
    }
}

/// Of the statuses `st`, the first ready one at the places `k, k + 1, ...,
/// st.len()` after `cur` in circular order.
pub open spec fn ready_from(st: Seq<TaskStatus>, cur: int, k: int) -> Option<usize>
    decreases st.len() + 1 - k,
{
    if k < 1 || k > st.len() {
        None
    } else if st[circ(cur, k, st.len() as int)] == TaskStatus::Ready {
        Some(circ(cur, k, st.len() as int) as usize)
    } else {
        ready_from(st, cur, k + 1)
    }
}

/// Of the statuses `st`, the first ready one after `cur` in circular order,
/// `cur` itself coming last.
pub open spec fn next_ready_in(st: Seq<TaskStatus>, cur: int) -> Option<usize> {
    ready_from(st, cur, 1)
}

/// What `ready_from` finds is a ready task.
pub proof fn lemma_ready_from_is_ready(st: Seq<TaskStatus>, cur: int, k: int)
    requires
        0 <= cur < st.len() <= usize::MAX,
    ensures
        ready_from(st, cur, k) matches Some(id) ==> id < st.len() && st[id as int]
            == TaskStatus::Ready,
    decreases st.len() + 1 - k,
{
    if 1 <= k <= st.len() {
        if st[circ(cur, k, st.len() as int)] != TaskStatus::Ready {
            lemma_ready_from_is_ready(st, cur, k + 1);
        }
    }
}

/// The counts `times` after one call of the system call `id`: its count goes
/// up by one, wrapping around at `u32::MAX`; ids at or above `MAX_SYSCALL_NUM`
/// are not counted.
pub open spec fn bump(times: Seq<u32>, id: usize) -> Seq<u32> {
    if id < MAX_SYSCALL_NUM {
        times.update(
            id as int,
            (if times[id as int] == u32::MAX {
                0
            } else {
                times[id as int] + 1
            }) as u32,
        )
    } else {
        times
    }
}

/// How many of the calls `ids` are calls of the system call `j`.
pub open spec fn calls_of(ids: Seq<usize>, j: int) -> nat
    decreases ids.len(),
{
    if ids.len() == 0 {
        0
    } else {
        calls_of(ids.drop_last(), j) + if ids.last() == j { 1nat } else { 0nat }
    }
}

/// `a` has the fields of `b`, but for the status and the launch time.
pub open spec fn same_but_state(a: TaskControlBlock, b: TaskControlBlock) -> bool {
    &&& a.syscall_times == b.syscall_times
    &&& a.memory_set == b.memory_set
    &&& a.heap_bottom == b.heap_bottom
    &&& a.program_brk == b.program_brk
    &&& a.trap_cx == b.trap_cx
}

/// All tasks, and the one that runs.
pub struct TaskManager {
    /// The number of tasks.
    pub num_app: usize,
    /// The tasks, by id.
    pub tasks: Vec<TaskControlBlock>,
    /// The id of the current task.
    pub current_task: usize,
    /// The allocator of physical frames.
    pub frame_allocator: FrameAllocator,
}

impl TaskManager {
    /// There is a task per id, the current id is one of them, and each task is
    /// well formed.
    pub open spec fn wf(&self) -> bool {
        &&& self.num_app == self.tasks@.len()
        &&& self.current_task < self.num_app
        &&& forall|i: int| 0 <= i < self.num_app ==> #[trigger] self.tasks@[i].wf()
        &&& self.frame_allocator.wf()
    }

    /// The current task.
    pub open spec fn cur(&self) -> TaskControlBlock {
        self.tasks@[self.current_task as int]
    }

    /// The status of the task `i`.
    pub open spec fn status(&self, i: int) -> TaskStatus {
        self.tasks@[i].task_status
    }

    /// The statuses of the tasks, by id.
    pub open spec fn statuses(&self) -> Seq<TaskStatus> {
        self.tasks@.map_values(|t: TaskControlBlock| t.task_status)
    }

    /// The task that the scheduler runs next: the first ready task after the
    /// current one in circular order, the current one coming last.
    pub open spec fn next_ready(&self) -> Option<usize> {
        next_ready_in(self.statuses(), self.current_task as int)
    }

    /// No task but the current one is running.
    pub open spec fn only_current_running(&self) -> bool {
        forall|i: int|
            0 <= i < self.tasks@.len() && i != self.current_task ==> #[trigger] self.status(i)
                != TaskStatus::Running
    }

    /// `self` is `old` with the task `id` alone changed, and in it only its status.
    pub open spec fn status_changed(&self, old: &TaskManager, id: int, s: TaskStatus) -> bool {
        &&& self.num_app == old.num_app
        &&& self.frame_allocator == old.frame_allocator
        &&& self.tasks@.len() == old.tasks@.len()
        &&& forall|j: int| 0 <= j < self.tasks@.len() && j != id ==> #[trigger] self.tasks@[j]
            == old.tasks@[j]
        &&& self.tasks@[id].task_status == s
        &&& self.tasks@[id].syscall_times == old.tasks@[id].syscall_times
        &&& self.tasks@[id].first_lauch_time == old.tasks@[id].first_lauch_time
        &&& self.tasks@[id].memory_set == old.tasks@[id].memory_set
        &&& self.tasks@[id].heap_bottom == old.tasks@[id].heap_bottom
        &&& self.tasks@[id].program_brk == old.tasks@[id].program_brk
        &&& self.tasks@[id].trap_cx == old.tasks@[id].trap_cx
    }

    /// `self` is `old` after the current task took the status `prev` and the
    /// scheduler ran the task `next`. The task run is current and running, and
    /// has a launch time (`now` if it had none); no other task changed.
    pub open spec fn switched_from(
        &self,
        old: &TaskManager,
        prev: TaskStatus,
        now: usize,
        next: usize,
    ) -> bool {
        let c = old.current_task as int;
        &&& self.num_app == old.num_app
        &&& self.frame_allocator == old.frame_allocator
        &&& self.tasks@.len() == old.tasks@.len()
        &&& forall|j: int|
            0 <= j < self.tasks@.len() ==> same_but_state(#[trigger] self.tasks@[j], old.tasks@[j])
        &&& self.current_task == next
        &&& forall|j: int|
            0 <= j < self.tasks@.len() && j != next && j != c ==> #[trigger] self.tasks@[j]
                == old.tasks@[j]
        &&& self.status(next as int) == TaskStatus::Running
        &&& self.tasks@[next as int].first_lauch_time == launched_at(
            old.tasks@[next as int].first_lauch_time,
            now,
        )
        &&& next != c ==> {
            &&& self.status(c) == prev
            &&& self.tasks@[c].first_lauch_time == old.tasks@[c].first_lauch_time
        }
    }

    /// From `old` to `self`, no task but the current one of `old` leaves the
    /// exited state, and the current task is either kept or one that was not exited.
    pub open spec fn exited_kept(&self, old: &TaskManager) -> bool {
        &&& self.tasks@.len() == old.tasks@.len()
        &&& forall|i: int|
            0 <= i < old.tasks@.len() && i != old.current_task && old.status(i)
                == TaskStatus::Exited ==> #[trigger] self.status(i) == TaskStatus::Exited
        &&& self.current_task == old.current_task || old.status(self.current_task as int)
            != TaskStatus::Exited
    }

    /// From `old` to `self`, a launch time once recorded does not change.
    pub open spec fn launch_kept(&self, old: &TaskManager) -> bool {
        &&& self.tasks@.len() == old.tasks@.len()
        &&& forall|i: int|
            0 <= i < old.tasks@.len() && old.tasks@[i].first_lauch_time is Some
                ==> #[trigger] self.tasks@[i].first_lauch_time == old.tasks@[i].first_lauch_time
    }

    /// `self` is `old` with the current task's address space and break alone changed.
    pub open spec fn only_current_space_changed(&self, old: &TaskManager) -> bool {
        &&& self.num_app == old.num_app
        &&& self.current_task == old.current_task
        &&& self.tasks@.len() == old.tasks@.len()
        &&& forall|j: int| 0 <= j < self.tasks@.len() && j != self.current_task
            ==> #[trigger] self.tasks@[j] == old.tasks@[j]
        &&& self.cur().task_status == old.cur().task_status
        &&& self.cur().syscall_times == old.cur().syscall_times
        &&& self.cur().first_lauch_time == old.cur().first_lauch_time
        &&& self.cur().heap_bottom == old.cur().heap_bottom
        &&& self.cur().trap_cx == old.cur().trap_cx
    }

    /// `self` is `old` after the current task's break was moved by `size`
    /// bytes with the result `r` (see `TaskControlBlock::brk_moved`); nothing
    /// else changed.
    pub open spec fn brk_changed(&self, old: &TaskManager, size: i32, r: Option<usize>) -> bool {
        &&& self.num_app == old.num_app
        &&& self.current_task == old.current_task
        &&& self.tasks@.len() == old.tasks@.len()
        &&& forall|j: int| 0 <= j < self.tasks@.len() && j != self.current_task
            ==> #[trigger] self.tasks@[j] == old.tasks@[j]
        &&& self.cur().brk_moved(
            &old.cur(),
            size,
            r,
            old.frame_allocator.state(),
            self.frame_allocator.state(),
        )
    }

    /// `self` is `old` after one call of the system call `syscall_id` was
    /// counted for the current task; ids at or above `MAX_SYSCALL_NUM` are not
    /// counted, and a count wraps around at `u32::MAX`.
    pub open spec fn counted(&self, old: &TaskManager, syscall_id: usize) -> bool {
        &&& self.num_app == old.num_app
        &&& self.current_task == old.current_task
        &&& self.tasks@.len() == old.tasks@.len()
        &&& forall|j: int|
            0 <= j < self.tasks@.len() && j != self.current_task ==> #[trigger] self.tasks@[j]
                == old.tasks@[j]
        &&& self.cur().task_status == old.cur().task_status
        &&& self.cur().first_lauch_time == old.cur().first_lauch_time
        &&& self.cur().memory_set == old.cur().memory_set
        &&& self.cur().heap_bottom == old.cur().heap_bottom
        &&& self.cur().program_brk == old.cur().program_brk
        &&& self.cur().trap_cx == old.cur().trap_cx
        &&& self.cur().syscall_times@ == bump(old.cur().syscall_times@, syscall_id)
        &&& self.frame_allocator == old.frame_allocator
    }

    /// `self` is `old` after the pages from `start_va` (rounded down) to
    /// `end_va` (rounded up) were mapped into the current task in turn, with
    /// `permission` and the user bit (see `map_all`), each to a zeroed frame.
    pub open spec fn area_mapped(
        &self,
        old: &TaskManager,
        start_va: VirtAddr,
        end_va: VirtAddr,
        permission: MapPermission,
    ) -> bool {
        let lo = vpn_floor(start_va.0 as int);
        let hi = vpn_ceil(end_va.0 as int);
        &&& self.only_current_space_changed(old)
        &&& self.cur().program_brk == old.cur().program_brk
        &&& self.cur().heap_frames@ == old.cur().heap_frames@
        &&& self.cur().memory_set.same_outside(&old.cur().memory_set, lo, hi)
        &&& self.cur().memory_set.fresh_in(lo, hi)
        &&& self.cur().memory_set.pt_state(self.frame_allocator.state()) == map_all(
            old.cur().memory_set.pt_state(old.frame_allocator.state()),
            lo,
            hi,
            MapPermission { bits: permission.bits | 0x10 },
        )
    }

    /// `self` is `old` after the pages of `[start, start + len)` were unmapped
    /// from the current task, one after the other up to the first that is not
    /// mapped, with the result `r`: 0 if there was none, else -1.
    pub open spec fn area_unmapped(&self, old: &TaskManager, start: usize, len: usize, r: isize) -> bool {
        let lo = vpn_floor(start as int % va_limit());
        let hi = vpn_ceil((start + len) % va_limit());
        let gap = old.cur().memory_set.first_unmapped(lo, hi);
        &&& self.only_current_space_changed(old)
        &&& self.cur().program_brk == old.cur().program_brk
        &&& r == (if gap < hi { -1isize } else { 0isize })
        &&& self.cur().memory_set.same_outside(&old.cur().memory_set, lo, gap)
        &&& self.cur().memory_set.cleared_in(lo, gap)
        &&& self.cur().memory_set.same_tables(&old.cur().memory_set)
        &&& self.cur().heap_frames@ == old.cur().heap_frames@
        &&& self.frame_allocator == old.frame_allocator
    }

    /// A manager of the tasks `tasks`, the first of which is current, with
    /// the frame allocator `frame_allocator`.
    pub fn new(tasks: Vec<TaskControlBlock>, frame_allocator: FrameAllocator) -> (r: TaskManager)
        requires
            tasks@.len() > 0,
            forall|i: int| 0 <= i < tasks@.len() ==> #[trigger] tasks@[i].wf(),
            frame_allocator.wf(),
        ensures
            r.wf(),
            r.tasks@ == tasks@,
            r.current_task == 0,
            r.frame_allocator == frame_allocator,
    {
        TaskManager { num_app: tasks.len(), tasks, current_task: 0, frame_allocator }
    }

    /// Runs the first task: marks it running and records `now` as its launch time.
    pub fn run_first_task(&mut self, now: usize)
        requires
            old(self).wf(),
        ensures
            final(self).wf(),
            final(self).current_task == old(self).current_task,
            final(self).num_app == old(self).num_app,
            final(self).tasks@.len() == old(self).tasks@.len(),
            forall|j: int| 0 < j < final(self).tasks@.len() ==> #[trigger] final(self).tasks@[j]
                == old(self).tasks@[j],
            final(self).status(0) == TaskStatus::Running,
            final(self).tasks@[0].first_lauch_time == Some(now),
            final(self).tasks@[0].syscall_times == old(self).tasks@[0].syscall_times,
            final(self).tasks@[0].memory_set == old(self).tasks@[0].memory_set,
            final(self).tasks@[0].heap_bottom == old(self).tasks@[0].heap_bottom,
            final(self).tasks@[0].program_brk == old(self).tasks@[0].program_brk,
            final(self).tasks@[0].trap_cx == old(self).tasks@[0].trap_cx,
            old(self).current_task == 0 && (forall|i: int|
                0 <= i < old(self).tasks@.len() ==> #[trigger] old(self).status(i)
                    != TaskStatus::Running) ==> final(self).only_current_running(),
    {
        assert(old(self).tasks@[0].wf());
        self.tasks[0].task_status = TaskStatus::Running;
        self.tasks[0].first_lauch_time = Some(now);
        assert forall|i: int| 0 <= i < self.num_app implies #[trigger] self.tasks@[i].wf() by {
            if i != 0 {
                assert(self.tasks@[i] == old(self).tasks@[i]);
            }
        }
        assert forall|i: int|
            0 <= i < self.tasks@.len() && i != 0 implies #[trigger] self.status(i)
            == old(self).status(i) by {
            assert(self.tasks@[i] == old(self).tasks@[i]);
        }
    }

    /// Sets the status of the task `id` to `s`.
    fn set_task_status(&mut self, id: usize, s: TaskStatus)
        requires
            old(self).wf(),
            id < old(self).num_app,
        ensures
            final(self).wf(),
            final(self).current_task == old(self).current_task,
            final(self).status_changed(old(self), id as int, s),
    {
        assert(old(self).tasks@[id as int].wf());
        self.tasks[id].task_status = s;
        assert forall|i: int| 0 <= i < self.num_app implies #[trigger] self.tasks@[i].wf() by {
            if i != id {
                assert(self.tasks@[i] == old(self).tasks@[i]);
            }
        }
    }

    /// Marks the current task ready.
    pub fn mark_current_suspended(&mut self)
        requires
            old(self).wf(),
        ensures
            final(self).wf(),
            final(self).current_task == old(self).current_task,
            final(self).status_changed(old(self), old(self).current_task as int, TaskStatus::Ready),
    {
        let cur = self.current_task;
        self.set_task_status(cur, TaskStatus::Ready);
    }

    /// Marks the current task exited.
    pub fn mark_current_exited(&mut self)
        requires
            old(self).wf(),
        ensures
            final(self).wf(),
            final(self).current_task == old(self).current_task,
            final(self).status_changed(old(self), old(self).current_task as int, TaskStatus::Exited),
    {
        let cur = self.current_task;
        self.set_task_status(cur, TaskStatus::Exited);
    }

    /// The id of the task to run next: the first ready task after the current
    /// one in circular order, the current one coming last; `None` if no task is ready.
    pub fn find_next_task(&self) -> (r: Option<usize>)
        requires
            self.wf(),
        ensures
            r == self.next_ready(),
    {
        let n = self.num_app;
        let cur = self.current_task;
        let mut step: usize = 0;
        let mut id: usize = if cur + 1 == n { 0 } else { cur + 1 };
        while step < n
            invariant
                self.wf(),
                n == self.num_app,
                cur == self.current_task,
                step <= n,
                step < n ==> id == circ(cur as int, step + 1, n as int),
                step < n ==> id < n,
                self.next_ready() == ready_from(self.statuses(), cur as int, step + 1),
            decreases n - step,
        {
            if self.tasks[id].task_status == TaskStatus::Ready {
                return Some(id);
            }
            step = step + 1;
            id = if id + 1 == n { 0 } else { id + 1 };
        }
        None
    }

    /// The `satp` value of the current task's address space.
    pub fn get_current_token(&self) -> (r: u64)
        requires
            self.wf(),
        ensures
            r == 0x8000_0000_0000_0000 + self.cur().memory_set.root_ppn,
    {
        self.tasks[self.current_task].get_user_token()
    }

    /// The current task's trap context, to read or change in place; nothing
    /// else of the manager changes.
    pub fn get_current_trap_cx(&mut self) -> (r: &mut TrapContext)
        requires
            old(self).wf(),
        ensures
            *r == old(self).cur().trap_cx,
            final(self).wf(),
            final(self).num_app == old(self).num_app,
            final(self).current_task == old(self).current_task,
            final(self).tasks@.len() == old(self).tasks@.len(),
            forall|j: int| 0 <= j < final(self).tasks@.len() && j != final(self).current_task
                ==> #[trigger] final(self).tasks@[j] == old(self).tasks@[j],
            final(self).cur().task_status == old(self).cur().task_status,
            final(self).cur().syscall_times == old(self).cur().syscall_times,
            final(self).cur().first_lauch_time == old(self).cur().first_lauch_time,
            final(self).cur().memory_set == old(self).cur().memory_set,
            final(self).cur().heap_bottom == old(self).cur().heap_bottom,
            final(self).cur().program_brk == old(self).cur().program_brk,
            final(self).cur().trap_cx == *final(r),
    {
        let cur = self.current_task;
        assert(old(self).tasks@[cur as int].wf());
        &mut self.tasks[cur].trap_cx
    }

    /// Changes the current task's break by `size` bytes (see
    /// `TaskControlBlock::change_program_brk`).
    pub fn change_current_program_brk(&mut self, size: i32) -> (r: Option<usize>)
        requires
            old(self).wf(),
            old(self).cur().brk_target(size) <= isize::MAX,
            old(self).cur().brk_move_ok(size, old(self).frame_allocator.state()),
        ensures
            final(self).wf(),
            final(self).brk_changed(old(self), size, r),

    {
        let cur = self.current_task;
        assert(old(self).tasks@[cur as int].wf());
        let r = self.tasks[cur].change_program_brk(&mut self.frame_allocator, size);
        assert forall|i: int| 0 <= i < self.num_app implies #[trigger] self.tasks@[i].wf() by {
            if i != cur {
                assert(self.tasks@[i] == old(self).tasks@[i]);
            }
        }
        r
    }

    /// Exchanges the current task's address space with `ms`.
    fn swap_current_space(&mut self, ms: &mut MemorySet)
        requires
            old(self).wf(),
            old(ms).wf(),
        ensures
            final(self).wf(),
            final(self).only_current_space_changed(old(self)),
            final(self).cur().program_brk == old(self).cur().program_brk,
            final(self).cur().memory_set == *old(ms),
            *final(ms) == old(self).cur().memory_set,
            final(self).cur().heap_frames == old(self).cur().heap_frames,
            final(self).frame_allocator == old(self).frame_allocator,
    {
        let cur = self.current_task;
        assert(old(self).tasks@[cur as int].wf());
        std::mem::swap(&mut self.tasks[cur].memory_set, ms);
        assert forall|i: int| 0 <= i < self.num_app implies #[trigger] self.tasks@[i].wf() by {
            if i != cur {
                assert(self.tasks@[i] == old(self).tasks@[i]);
            }
        }
    }

    /// Runs the task that the scheduler picks next: marks it running, makes it
    /// current, and records `now` as its launch time if it has not run before.
    /// Returns its id. A task must be ready: where none is, all tasks have
    /// completed, and the caller stops.
    pub fn run_next_task(&mut self, now: usize) -> (r: usize)
        requires
            old(self).wf(),
            old(self).next_ready() is Some,
        ensures
            final(self).wf(),
            Some(r) == old(self).next_ready(),
            final(self).switched_from(old(self), old(self).status(old(self).current_task as int), now, r),
            final(self).exited_kept(old(self)),
            final(self).launch_kept(old(self)),
            forall|i: int|
                0 <= i < old(self).tasks@.len() && old(self).status(i) == TaskStatus::Exited
                    ==> #[trigger] final(self).status(i) == TaskStatus::Exited,
    {
        proof {
            lemma_ready_from_is_ready(self.statuses(), self.current_task as int, 1);
        }
        let next = self.find_next_task().unwrap();
        assert(self.tasks@[next as int].wf());
        assert(old(self).status(next as int) == TaskStatus::Ready);
        self.tasks[next].task_status = TaskStatus::Running;
        self.current_task = next;
        if self.tasks[next].first_lauch_time.is_none() {
            self.tasks[next].first_lauch_time = Some(now);
        }
        assert forall|i: int| 0 <= i < self.num_app implies #[trigger] self.tasks@[i].wf() by {
            if i != next {
                assert(self.tasks@[i] == old(self).tasks@[i]);
            }
        }
        assert forall|i: int| 0 <= i < self.num_app && i != next implies #[trigger] self.status(i)
            == old(self).status(i) by {
            assert(self.tasks@[i] == old(self).tasks@[i]);
        }
        assert forall|i: int|
            0 <= i < old(self).tasks@.len() && old(self).tasks@[i].first_lauch_time is Some
                implies #[trigger] self.tasks@[i].first_lauch_time == old(self).tasks@[i].first_lauch_time by {
            if i != next {
                assert(self.tasks@[i] == old(self).tasks@[i]);
            }
        }
        next
    }

    /// The time in milliseconds since the current task first ran, or 0 if it
    /// has not run.
    pub fn get_running_time(&self, now: usize) -> (r: usize)
        requires
            self.wf(),
            self.cur().first_lauch_time matches Some(t) ==> t <= now,
        ensures
            r == (match self.cur().first_lauch_time {
                Some(t) => now - t,
                None => 0,
            }),
    {
        let current = self.current_task;
        if let Some(time) = self.tasks[current].first_lauch_time {
            return now - time;
        } else {
            return 0;
        }
    }

    /// Counts one call of the system call `syscall_id` for the current task;
    /// ids at or above `MAX_SYSCALL_NUM` are not counted. A count wraps around
    /// at `u32::MAX`.
    pub fn count_syscall(&mut self, syscall_id: usize)
        requires
            old(self).wf(),
        ensures
            final(self).wf(),
            final(self).counted(old(self), syscall_id),

    {
        if syscall_id < MAX_SYSCALL_NUM {
            let current = self.current_task;
            assert(old(self).tasks@[current as int].wf());
            let count = self.tasks[current].syscall_times[syscall_id];
            let next: u32 = if count == u32::MAX { 0 } else { count + 1 };
            self.tasks[current].syscall_times[syscall_id] = next;
            assert forall|i: int| 0 <= i < self.num_app implies #[trigger] self.tasks@[i].wf() by {
                if i != current {
                    assert(self.tasks@[i] == old(self).tasks@[i]);
                }
            }
        }
    }

    /// A copy of the current task's system-call counts.
    pub fn get_syscall_times(&self) -> (r: Box<[u32; MAX_SYSCALL_NUM]>)
        requires
            self.wf(),
        ensures
            r@ == self.cur().syscall_times@,
    {
        Box::new(self.tasks[self.current_task].syscall_times)
    }

    /// The entry of the page `vpn` in the current task's page table, if one has been written.
    pub fn get_vpn_to_pte(&self, vpn: VirtPageNum) -> (r: Option<PageTableEntry>)
        requires
            self.wf(),
        ensures
            r == self.cur().memory_set.entry(vpn.0),
    {
        self.tasks[self.current_task].memory_set.translate(vpn)
    }

    /// Maps the pages from `start_va` (rounded down) to `end_va` (rounded up)
    /// into the current task with `permission` and the user bit, each to a new,
    /// zeroed frame.
    pub fn crate_new_maparea(&mut self, start_va: VirtAddr, end_va: VirtAddr, permission: MapPermission)
        requires
            old(self).wf(),
            vpn_floor(start_va.0 as int) <= vpn_ceil(end_va.0 as int),
            forall|v: usize|
                vpn_floor(start_va.0 as int) <= v < vpn_ceil(end_va.0 as int)
                    ==> !#[trigger] old(self).cur().memory_set.maps(v),
            map_all_fits(
                old(self).cur().memory_set.pt_state(old(self).frame_allocator.state()),
                vpn_floor(start_va.0 as int),
                vpn_ceil(end_va.0 as int),
                MapPermission { bits: permission.bits | 0x10 },
            ),
        ensures
            final(self).wf(),
            final(self).area_mapped(old(self), start_va, end_va, permission),

    {
        let cur = self.current_task;
        assert(old(self).tasks@[cur as int].wf());
        let perm = permission.union(MapPermission::user());
        self.tasks[cur].memory_set.map_range(&mut self.frame_allocator, start_va.floor(), end_va.ceil(), perm);
        assert forall|i: int| 0 <= i < self.num_app implies #[trigger] self.tasks@[i].wf() by {
            if i != cur {
                assert(self.tasks@[i] == old(self).tasks@[i]);
            }
        }
    }

    /// Unmaps the pages of `[start, start + len)` from the current task, one
    /// after the other, and stops at the first page that is not mapped.
    /// Returns 0 if all were unmapped, -1 if it stopped.
    pub fn unmap_maparea(&mut self, start: usize, len: usize) -> (r: isize)
        requires
            old(self).wf(),
            start + len <= usize::MAX,
            vpn_floor(start as int % va_limit()) <= vpn_ceil((start + len) % va_limit()),
        ensures
            final(self).wf(),
            final(self).area_unmapped(old(self), start, len, r),

    {
        let start_vpn = VirtAddr::new(start).floor();
        let end_vpn = VirtAddr::new(start + len).ceil();
        let ghost lo = start_vpn.0 as int;
        let ghost hi = end_vpn.0 as int;
        let ghost old_ms = old(self).cur().memory_set;
        let mut ms = MemorySet::new(0);
        assert(old(self).tasks@[old(self).current_task as int].wf());
        self.swap_current_space(&mut ms);
        let mut v = start_vpn.0;
        let mut result: isize = 0;
        while v < end_vpn.0
            invariant_except_break
                result == 0,
            invariant
                lo <= v <= hi,
                hi == end_vpn.0,
                ms.wf(),
                ms.same_outside(&old_ms, lo, v as int),
                ms.cleared_in(lo, v as int),
                ms.same_tables(&old_ms),
                old_ms.first_unmapped(lo, hi) == old_ms.first_unmapped(v as int, hi),
            ensures
                (result == 0 && v == hi) || (result == -1 && v < hi && !old_ms.maps(v)),
            decreases hi - v,
        {
            let found = match ms.translate(VirtPageNum(v)) {
                Some(pte) => pte.is_valid(),
                None => false,
            };
            assert(ms.ptes().contains_key(v) == old_ms.ptes().contains_key(v));
            if !found {
                result = -1;
                break;
            }
            assert(old_ms.maps(v));
            ms.unmap_one(VirtPageNum(v));
            v = v + 1;
        }
        self.swap_current_space(&mut ms);
        result
    }
}

/// When the task `cur` is ready, the scheduler always finds a task.
pub proof fn lemma_ready_current_found(st: Seq<TaskStatus>, cur: int, k: int)
    requires
        0 <= cur < st.len() <= usize::MAX,
        1 <= k <= st.len(),
        st[cur] == TaskStatus::Ready,
    ensures
        ready_from(st, cur, k) is Some,
    decreases st.len() + 1 - k,
{
    if st[circ(cur, k, st.len() as int)] != TaskStatus::Ready {
        assert(k != st.len());
        lemma_ready_current_found(st, cur, k + 1);
    }
}

/// Runs the first task, marking `now` as its launch time.
pub fn run_first_task(tm: &mut TaskManager, now: usize)
    requires
        old(tm).wf(),
    ensures
        final(tm).wf(),
        final(tm).current_task == old(tm).current_task,
        final(tm).num_app == old(tm).num_app,
        final(tm).tasks@.len() == old(tm).tasks@.len(),
        forall|j: int| 0 < j < final(tm).tasks@.len() ==> #[trigger] final(tm).tasks@[j]
            == old(tm).tasks@[j],
        final(tm).status(0) == TaskStatus::Running,
        final(tm).tasks@[0].first_lauch_time == Some(now),
        same_but_state(final(tm).tasks@[0], old(tm).tasks@[0]),
        old(tm).current_task == 0 && (forall|i: int|
            0 <= i < old(tm).tasks@.len() ==> #[trigger] old(tm).status(i) != TaskStatus::Running)
            ==> final(tm).only_current_running(),
{
    tm.run_first_task(now);
}

/// Runs the task that the scheduler picks next (see `TaskManager::run_next_task`).
fn run_next_task(tm: &mut TaskManager, now: usize) -> (r: usize)
    requires
        old(tm).wf(),
        old(tm).next_ready() is Some,
    ensures
        final(tm).wf(),
        Some(r) == old(tm).next_ready(),
        final(tm).switched_from(old(tm), old(tm).status(old(tm).current_task as int), now, r),
        final(tm).exited_kept(old(tm)),
        final(tm).launch_kept(old(tm)),
{
    tm.run_next_task(now)
}

/// Marks the current task ready.
fn mark_current_suspended(tm: &mut TaskManager)
    requires
        old(tm).wf(),
    ensures
        final(tm).wf(),
        final(tm).current_task == old(tm).current_task,
        final(tm).status_changed(old(tm), old(tm).current_task as int, TaskStatus::Ready),
{
    tm.mark_current_suspended();
}

/// Marks the current task exited.
fn mark_current_exited(tm: &mut TaskManager)
    requires
        old(tm).wf(),
    ensures
        final(tm).wf(),
        final(tm).current_task == old(tm).current_task,
        final(tm).status_changed(old(tm), old(tm).current_task as int, TaskStatus::Exited),
{
    tm.mark_current_exited();
}

/// Suspends the current task and runs the next one. The scheduler always
/// finds one, since the suspended task is ready itself; the id of the task run
/// is returned.
pub fn suspend_current_and_run_next(tm: &mut TaskManager, now: usize) -> (r: usize)
    requires
        old(tm).wf(),
    ensures
        final(tm).wf(),
        Some(r) == next_ready_in(
            old(tm).statuses().update(old(tm).current_task as int, TaskStatus::Ready),
            old(tm).current_task as int,
        ),
        final(tm).switched_from(old(tm), TaskStatus::Ready, now, r),
        final(tm).exited_kept(old(tm)),
        final(tm).launch_kept(old(tm)),
        old(tm).only_current_running() ==> final(tm).only_current_running(),
{
    let ghost c = old(tm).current_task as int;
    mark_current_suspended(tm);
    let ghost mid: TaskManager = *tm;
    assert(mid.statuses() =~= old(tm).statuses().update(c, TaskStatus::Ready));
    proof {
        lemma_ready_current_found(mid.statuses(), c, 1);
        lemma_ready_from_is_ready(mid.statuses(), c, 1);
    }
    let r = run_next_task(tm, now);
    proof {
        lemma_switch_after_mark(*old(tm), mid, *tm, TaskStatus::Ready, now, r);
    }
    r
}

/// Exits the current task and runs the next one, whose id is returned. A task
/// other than the current one must be ready: where none is, all tasks have
/// completed, and the caller stops.
pub fn exit_current_and_run_next(tm: &mut TaskManager, now: usize) -> (r: usize)
    requires
        old(tm).wf(),
        next_ready_in(
            old(tm).statuses().update(old(tm).current_task as int, TaskStatus::Exited),
            old(tm).current_task as int,
        ) is Some,
    ensures
        final(tm).wf(),
        Some(r) == next_ready_in(
            old(tm).statuses().update(old(tm).current_task as int, TaskStatus::Exited),
            old(tm).current_task as int,
        ),
        final(tm).switched_from(old(tm), TaskStatus::Exited, now, r),
        final(tm).status(old(tm).current_task as int) == TaskStatus::Exited,
        final(tm).current_task != old(tm).current_task,
        final(tm).exited_kept(old(tm)),
        final(tm).launch_kept(old(tm)),
        old(tm).only_current_running() ==> final(tm).only_current_running(),
        forall|i: int|
            0 <= i < old(tm).tasks@.len() && old(tm).status(i) == TaskStatus::Exited
                ==> #[trigger] final(tm).status(i) == TaskStatus::Exited,
{
    let ghost c = old(tm).current_task as int;
    mark_current_exited(tm);
    let ghost mid: TaskManager = *tm;
    assert(mid.statuses() =~= old(tm).statuses().update(c, TaskStatus::Exited));
    proof {
        lemma_ready_from_is_ready(mid.statuses(), c, 1);
    }
    let r = run_next_task(tm, now);
    proof {
        lemma_switch_after_mark(*old(tm), mid, *tm, TaskStatus::Exited, now, r);
    }
    r
}

/// Marking the current task `prev` (`old` to `mid`) and then running the
/// next task (`mid` to `new`) is a switch from `old` with `prev`, which keeps
/// exited tasks exited, keeps launch times, and keeps the current task the
/// only running one.
proof fn lemma_switch_after_mark(
    old: TaskManager,
    mid: TaskManager,
    new: TaskManager,
    prev: TaskStatus,
    now: usize,
    r: usize,
)
    requires
        old.wf(),
        mid.wf(),
        prev != TaskStatus::Running,
        mid.current_task == old.current_task,
        mid.status_changed(&old, old.current_task as int, prev),
        Some(r) == mid.next_ready(),
        new.switched_from(&mid, mid.status(mid.current_task as int), now, r),
        new.exited_kept(&mid),
        new.launch_kept(&mid),
    ensures
        new.switched_from(&old, prev, now, r),
        new.exited_kept(&old),
        new.launch_kept(&old),
        old.only_current_running() ==> new.only_current_running(),
        prev == TaskStatus::Exited ==> new.current_task != old.current_task,
        prev == TaskStatus::Exited ==> forall|i: int|
            0 <= i < old.tasks@.len() && old.status(i) == TaskStatus::Exited
                ==> #[trigger] new.status(i) == TaskStatus::Exited,
{
    let c = old.current_task as int;
    lemma_ready_from_is_ready(mid.statuses(), c, 1);
    assert forall|j: int| 0 <= j < new.tasks@.len() implies same_but_state(
        #[trigger] new.tasks@[j],
        old.tasks@[j],
    ) by {
        assert(same_but_state(new.tasks@[j], mid.tasks@[j]));
    }
    assert forall|i: int| 0 <= i < old.tasks@.len() && i != c implies #[trigger] mid.status(i)
        == old.status(i) by {
        assert(mid.tasks@[i] == old.tasks@[i]);
    }
    assert forall|i: int|
        0 <= i < old.tasks@.len() && old.tasks@[i].first_lauch_time is Some
            implies #[trigger] new.tasks@[i].first_lauch_time == old.tasks@[i].first_lauch_time by {
        assert(mid.tasks@[i].first_lauch_time == old.tasks@[i].first_lauch_time);
    }
    assert(mid.status(r as int) == TaskStatus::Ready);
    if old.only_current_running() {
        assert forall|i: int|
            0 <= i < new.tasks@.len() && i != new.current_task implies #[trigger] new.status(i)
            != TaskStatus::Running by {
            if i != c {
                assert(old.status(i) != TaskStatus::Running);
                assert(mid.tasks@[i] == old.tasks@[i]);
                assert(new.tasks@[i] == mid.tasks@[i]);
            }
        }
    }
    if prev == TaskStatus::Exited {
        assert forall|i: int|
            0 <= i < old.tasks@.len() && old.status(i) == TaskStatus::Exited
                implies #[trigger] new.status(i) == TaskStatus::Exited by {
            if i != c {
                assert(new.status(i) == mid.status(i));
            }
        }
    }
}

/// The `satp` value of the current task's address space.
pub fn current_user_token(tm: &TaskManager) -> (r: u64)
    requires
        tm.wf(),
    ensures
        r == 0x8000_0000_0000_0000 + tm.cur().memory_set.root_ppn,
{
    tm.get_current_token()
}

/// The current task's trap context (see `TaskManager::get_current_trap_cx`).
pub fn current_trap_cx(tm: &mut TaskManager) -> (r: &mut TrapContext)
    requires
        old(tm).wf(),
    ensures
        *r == old(tm).cur().trap_cx,
        final(tm).wf(),
        final(tm).num_app == old(tm).num_app,
        final(tm).current_task == old(tm).current_task,
        final(tm).tasks@.len() == old(tm).tasks@.len(),
        forall|j: int| 0 <= j < final(tm).tasks@.len() && j != final(tm).current_task
            ==> #[trigger] final(tm).tasks@[j] == old(tm).tasks@[j],
        final(tm).cur().task_status == old(tm).cur().task_status,
        final(tm).cur().first_lauch_time == old(tm).cur().first_lauch_time,
        final(tm).cur().syscall_times == old(tm).cur().syscall_times,
        final(tm).cur().memory_set == old(tm).cur().memory_set,
        final(tm).cur().heap_bottom == old(tm).cur().heap_bottom,
        final(tm).cur().program_brk == old(tm).cur().program_brk,
        final(tm).cur().trap_cx == *final(r),
{
    tm.get_current_trap_cx()
}

/// Moves the current task's break by `size` bytes (see `TaskManager::brk_changed`).
pub fn change_program_brk(tm: &mut TaskManager, size: i32) -> (r: Option<usize>)
    requires
        old(tm).wf(),
        old(tm).cur().brk_target(size) <= isize::MAX,
        old(tm).cur().brk_move_ok(size, old(tm).frame_allocator.state()),
    ensures
        final(tm).wf(),
        final(tm).brk_changed(old(tm), size, r),
{
    tm.change_current_program_brk(size)
}

/// The time in milliseconds since the current task first ran, or 0 if it has not run.
pub fn get_run_time(tm: &TaskManager, now: usize) -> (r: usize)
    requires
        tm.wf(),
        tm.cur().first_lauch_time matches Some(t) ==> t <= now,
    ensures
        r == (match tm.cur().first_lauch_time {
            Some(t) => now - t,
            None => 0,
        }),
{
    tm.get_running_time(now)
}

/// A copy of the current task's system-call counts.
pub fn get_task_syscall_times(tm: &TaskManager) -> (r: Box<[u32; MAX_SYSCALL_NUM]>)
    requires
        tm.wf(),
    ensures
        r@ == tm.cur().syscall_times@,
{
    tm.get_syscall_times()
}

/// Counts one call of the system call `syscall_id` for the current task.
pub fn count_syscall(tm: &mut TaskManager, syscall_id: usize)
    requires
        old(tm).wf(),
    ensures
        final(tm).wf(),
        final(tm).counted(old(tm), syscall_id),
{
    tm.count_syscall(syscall_id);
}

/// The entry of the page `vpn` in the current task's page table, if one has been written.
pub fn get_vpn_pte(tm: &TaskManager, vpn: VirtPageNum) -> (r: Option<PageTableEntry>)
    requires
        tm.wf(),
    ensures
        r == tm.cur().memory_set.entry(vpn.0),
{
    tm.get_vpn_to_pte(vpn)
}

/// Maps the pages from `start_va` to `end_va` into the current task (see
/// `TaskManager::area_mapped`).
pub fn create_new_maparea(
    tm: &mut TaskManager,
    start_va: VirtAddr,
    end_va: VirtAddr,
    permission: MapPermission,
)
    requires
        old(tm).wf(),
        vpn_floor(start_va.0 as int) <= vpn_ceil(end_va.0 as int),
        forall|v: usize|
            vpn_floor(start_va.0 as int) <= v < vpn_ceil(end_va.0 as int)
                ==> !#[trigger] old(tm).cur().memory_set.maps(v),
        map_all_fits(
            old(tm).cur().memory_set.pt_state(old(tm).frame_allocator.state()),
            vpn_floor(start_va.0 as int),
            vpn_ceil(end_va.0 as int),
            MapPermission { bits: permission.bits | 0x10 },
        ),
    ensures
        final(tm).wf(),
        final(tm).area_mapped(old(tm), start_va, end_va, permission),
{
    tm.crate_new_maparea(start_va, end_va, permission)
}

/// Unmaps the pages of `[start, start + len)` from the current task (see
/// `TaskManager::area_unmapped`).
pub fn unmap_maparea(tm: &mut TaskManager, start: usize, len: usize) -> (r: isize)
    requires
        old(tm).wf(),
        start + len <= usize::MAX,
        vpn_floor(start as int % va_limit()) <= vpn_ceil((start + len) % va_limit()),
    ensures
        final(tm).wf(),
        final(tm).area_unmapped(old(tm), start, len, r),
{
    tm.unmap_maparea(start, len)
}

/// Every task lies at one of the places `1..=n` after `cur` in circular order.
proof fn lemma_circ_covers(cur: int, n: int, i: int)
    requires
        0 <= cur < n,
        0 <= i < n,
    ensures
        1 <= (if i > cur { i - cur } else { i + n - cur }) <= n,
        circ(cur, if i > cur { i - cur } else { i + n - cur }, n) == i,
{
}

/// `ready_from(st, cur, k)` finds nothing exactly when none of the places
/// `k..=n` after `cur` holds a ready task.
proof fn lemma_ready_from_none(st: Seq<TaskStatus>, cur: int, k: int)
    requires
        0 <= cur < st.len() <= usize::MAX,
        1 <= k,
    ensures
        ready_from(st, cur, k) is None <==> forall|j: int|
            k <= j <= st.len() ==> st[#[trigger] circ(cur, j, st.len() as int)]
                != TaskStatus::Ready,
    decreases st.len() + 1 - k,
{
    if k <= st.len() {
        lemma_ready_from_none(st, cur, k + 1);
    }
}

/// The scheduler finds no task to run exactly when no task is ready.
pub proof fn lemma_next_ready_none_iff_none_ready(st: Seq<TaskStatus>, cur: int)
    requires
        0 <= cur < st.len() <= usize::MAX,
    ensures
        next_ready_in(st, cur) is None <==> forall|i: int|
            0 <= i < st.len() ==> #[trigger] st[i] != TaskStatus::Ready,
{
    lemma_ready_from_none(st, cur, 1);
    let n = st.len() as int;
    if next_ready_in(st, cur) is None {
        assert forall|i: int| 0 <= i < st.len() implies #[trigger] st[i] != TaskStatus::Ready by {
            lemma_circ_covers(cur, n, i);
            let k = if i > cur { i - cur } else { i + n - cur };
            assert(st[circ(cur, k, n)] != TaskStatus::Ready);
        }
    } else {
        lemma_ready_from_is_ready(st, cur, 1);
    }
}

/// The scheduler picks the nearest ready task after `cur` in circular order:
/// every task that lies strictly between `cur` and the one picked is not ready.
pub proof fn lemma_next_ready_is_nearest(st: Seq<TaskStatus>, cur: int, k: int)
    requires
        0 <= cur < st.len() <= usize::MAX,
        next_ready_in(st, cur) matches Some(id) && circ(cur, k, st.len() as int) == id,
        1 <= k <= st.len(),
    ensures
        forall|j: int| 1 <= j < k ==> st[#[trigger] circ(cur, j, st.len() as int)] != TaskStatus::Ready,
{
    lemma_nearest_from(st, cur, 1, k);
}

/// If `ready_from(st, cur, m)` finds the task at place `k`, no place from `m`
/// up to `k` holds a ready task.
proof fn lemma_nearest_from(st: Seq<TaskStatus>, cur: int, m: int, k: int)
    requires
        0 <= cur < st.len() <= usize::MAX,
        1 <= m <= k <= st.len(),
        ready_from(st, cur, m) matches Some(id) && circ(cur, k, st.len() as int) == id,
    ensures
        forall|j: int| m <= j < k ==> st[#[trigger] circ(cur, j, st.len() as int)] != TaskStatus::Ready,
    decreases k - m,
{
    let n = st.len() as int;
    if st[circ(cur, m, n)] == TaskStatus::Ready {
        // found at place m, which is also place k: the places are distinct
        assert(circ(cur, m, n) == circ(cur, k, n));
        assert(m == k);
    } else {
        lemma_ready_from_is_ready(st, cur, m);
        assert(m != k);
        lemma_nearest_from(st, cur, m + 1, k);
    }
}

/// An exited task never runs again: from a state where the task `c` is
/// exited and not current (as `sys_exit` leaves it), along any run of steps
/// each of which keeps exited tasks exited (as every system call does), `c`
/// stays exited and never becomes current.
pub proof fn lemma_exited_task_never_runs_again(states: Seq<TaskManager>, c: int)
    requires
        states.len() >= 1,
        0 <= c < states[0].tasks@.len(),
        states[0].status(c) == TaskStatus::Exited,
        states[0].current_task != c,
        forall|i: int| 0 <= i < states.len() - 1 ==> #[trigger] states[i + 1].exited_kept(&states[i]),
    ensures
        forall|i: int|
            0 <= i < states.len() ==> {
                &&& c < #[trigger] states[i].tasks@.len()
                &&& states[i].status(c) == TaskStatus::Exited
                &&& states[i].current_task != c
            },
    decreases states.len(),
{
    if states.len() > 1 {
        let pre = states.drop_last();
        assert forall|i: int| 0 <= i < pre.len() - 1 implies #[trigger] pre[i + 1].exited_kept(&pre[i]) by {
            assert(pre[i + 1] == states[i + 1] && pre[i] == states[i]);
            assert(states[i + 1].exited_kept(&states[i]));
        }
        lemma_exited_task_never_runs_again(pre, c);
        let n = states.len() - 1;
        assert(pre[n - 1] == states[n - 1]);
        let m = n - 1;
        assert(states[m + 1].exited_kept(&states[m]));
        assert(m + 1 == n);
        assert forall|i: int| 0 <= i < states.len() implies {
            &&& c < #[trigger] states[i].tasks@.len()
            &&& states[i].status(c) == TaskStatus::Exited
            &&& states[i].current_task != c
        } by {
            if i < n {
                assert(pre[i] == states[i]);
                assert(c < pre[i].tasks@.len());
            } else {
                assert(pre[m] == states[m]);
                assert(c < pre[m].tasks@.len());
                assert(states[m].status(c) == TaskStatus::Exited);
                assert(states[m].current_task != c);
            }
        }
    } else {
        assert(c < states[0].tasks@.len());
    }
}

/// A launch time, once recorded, is kept along any run of steps that keep
/// launch times (as every system call does).
pub proof fn lemma_launch_time_kept(states: Seq<TaskManager>, c: int, t: usize)
    requires
        states.len() >= 1,
        0 <= c < states[0].tasks@.len(),
        states[0].tasks@[c].first_lauch_time == Some(t),
        forall|i: int| 0 <= i < states.len() - 1 ==> #[trigger] states[i + 1].launch_kept(&states[i]),
    ensures
        forall|i: int|
            0 <= i < states.len() ==> c < #[trigger] states[i].tasks@.len()
                && states[i].tasks@[c].first_lauch_time == Some(t),
    decreases states.len(),
{
    if states.len() > 1 {
        let pre = states.drop_last();
        assert forall|i: int| 0 <= i < pre.len() - 1 implies #[trigger] pre[i + 1].launch_kept(&pre[i]) by {
            assert(pre[i + 1] == states[i + 1] && pre[i] == states[i]);
            assert(states[i + 1].launch_kept(&states[i]));
        }
        lemma_launch_time_kept(pre, c, t);
        let n = states.len() - 1;
        assert(pre[n - 1] == states[n - 1]);
        let m = n - 1;
        assert(states[m + 1].launch_kept(&states[m]));
        assert(m + 1 == n);
        assert forall|i: int| 0 <= i < states.len() implies c < #[trigger] states[i].tasks@.len()
            && states[i].tasks@[c].first_lauch_time == Some(t) by {
            if i < n {
                assert(pre[i] == states[i]);
            }
        }
    }
}

/// A task that yielded resumes as it left: when, after any run of steps that
/// keep launch times, the scheduler switches back to the task `c` (which had
/// run since `t`), `c` is current and running, and its launch time is still `t`.
pub proof fn lemma_yielded_task_resumes(
    states: Seq<TaskManager>,
    c: usize,
    t: usize,
    prev: TaskStatus,
    now: usize,
)
    requires
        states.len() >= 2,
        c < states[0].tasks@.len(),
        states[0].tasks@[c as int].first_lauch_time == Some(t),
        forall|i: int| 0 <= i < states.len() - 1 ==> #[trigger] states[i + 1].launch_kept(&states[i]),
        states.last().switched_from(&states[states.len() - 2], prev, now, c),
    ensures
        states.last().current_task == c,
        states.last().status(c as int) == TaskStatus::Running,
        states.last().tasks@[c as int].first_lauch_time == Some(t),
{
    lemma_launch_time_kept(states, c as int, t);
    assert(states[states.len() - 2].tasks@[c as int].first_lauch_time == Some(t));
    assert(states.last() == states[states.len() - 1]);
}

/// The counts of a task are the calls it made: from counts all zero, along
/// steps that keep the task current and count the calls `ids` (an id at or
/// above `MAX_SYSCALL_NUM` standing for a step that counts nothing, as every
/// system call but `count_syscall` does), each count is the number of calls
/// of its system call, as long as none passed `u32::MAX`.
pub proof fn lemma_counts_are_calls(states: Seq<TaskManager>, ids: Seq<usize>)
    requires
        states.len() == ids.len() + 1,
        states[0].wf(),
        forall|j: int| 0 <= j < MAX_SYSCALL_NUM ==> #[trigger] states[0].cur().syscall_times@[j] == 0,
        forall|i: int|
            0 <= i < ids.len() ==> #[trigger] states[i + 1].current_task == states[i].current_task
                && states[i + 1].cur().syscall_times@ == bump(states[i].cur().syscall_times@, ids[i]),
        forall|j: int| 0 <= j < MAX_SYSCALL_NUM ==> #[trigger] calls_of(ids, j) <= u32::MAX,
    ensures
        states.last().cur().syscall_times@.len() == MAX_SYSCALL_NUM,
        forall|j: int|
            0 <= j < MAX_SYSCALL_NUM ==> #[trigger] states.last().cur().syscall_times@[j]
                == calls_of(ids, j),
    decreases ids.len(),
{
    assert(states[0].tasks@[states[0].current_task as int].wf());
    if ids.len() > 0 {
        let pre = states.drop_last();
        let pids = ids.drop_last();
        let n = ids.len() - 1;
        assert forall|i: int| 0 <= i < pids.len() implies #[trigger] pre[i + 1].current_task
            == pre[i].current_task && pre[i + 1].cur().syscall_times@ == bump(
            pre[i].cur().syscall_times@,
            pids[i],
        ) by {
            assert(pre[i + 1] == states[i + 1] && pre[i] == states[i] && pids[i] == ids[i]);
            assert(states[i + 1].current_task == states[i].current_task);
        }
        assert forall|j: int| 0 <= j < MAX_SYSCALL_NUM implies #[trigger] calls_of(pids, j)
            <= u32::MAX by {
            assert(calls_of(ids, j) <= u32::MAX);
        }
        assert(pre[0] == states[0]);
        lemma_counts_are_calls(pre, pids);
        assert(pre.last() == states[n]);
        assert(states[n + 1].current_task == states[n].current_task);
        let before = states[n].cur().syscall_times@;
        let after = states[n + 1].cur().syscall_times@;
        assert(after == bump(before, ids[n]));
        assert(ids.last() == ids[n]);
        assert forall|j: int| 0 <= j < MAX_SYSCALL_NUM implies #[trigger] after[j] == calls_of(ids, j) by {
            assert(before[j] == calls_of(pids, j));
            assert(calls_of(ids, j) <= u32::MAX);
        }
    }
}

/// Heap frames that are handed out, not given back, and distinct can be
/// given back in turn.
pub proof fn lemma_dealloc_all_ok(s: AllocState, hf: Map<usize, usize>, v: int, hi: int)
    requires
        0 <= v,
        hi <= usize::MAX + 1,
        forall|u: usize| v <= u < hi ==> {
            &&& #[trigger] hf.contains_key(u)
            &&& hf[u] < s.current
            &&& !s.recycled.contains(hf[u])
        },
        forall|u: usize, w: usize| v <= u < hi && v <= w < hi && u != w
            ==> #[trigger] hf[u] != #[trigger] hf[w],
    ensures
        dealloc_all_ok(s, hf, v, hi),
    decreases hi - v,
{
    if v < hi {
        let p = hf[v as usize];
        assert(hf.contains_key(v as usize));
        let s1 = dealloc_spec(s, p);
        assert forall|u: usize| v + 1 <= u < hi implies {
            &&& #[trigger] hf.contains_key(u)
            &&& hf[u] < s1.current
            &&& !s1.recycled.contains(hf[u])
        } by {
            assert(hf.contains_key(u));
            assert(hf[u] != hf[v as usize]);
            if s1.recycled.contains(hf[u]) {
                let k = choose|k: int| 0 <= k < s1.recycled.len() && s1.recycled[k] == hf[u];
                if k < s.recycled.len() {
                    assert(s.recycled[k] == hf[u]);
                }
            }
        }
        lemma_dealloc_all_ok(s1, hf, v + 1, hi);
    }
}

} // verus!
