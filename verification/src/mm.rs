//! Virtual addresses, page-table entries and the user address space of a task.
use vstd::prelude::*;
use vstd::hash_map::HashMapWithView;
use crate::config::PAGE_SIZE;

verus! {

broadcast use vstd::std_specs::hash::group_hash_axioms;

/// One more than the largest virtual address under Sv39.
pub open spec fn va_limit() -> int {
    0x80_0000_0000
}

/// The page number holding the address `va`.
pub open spec fn vpn_floor(va: int) -> int {
    va / PAGE_SIZE as int
}

/// The first page number at or above the address `va`.
pub open spec fn vpn_ceil(va: int) -> int {
    if va == 0 { 0 } else { (va - 1) / PAGE_SIZE as int + 1 }
}

/// A virtual address.
#[derive(Clone, Copy, Debug, PartialEq, Eq, Structural)]
pub struct VirtAddr(pub usize);

/// A virtual page number.
#[derive(Clone, Copy, Debug, PartialEq, Eq, Structural)]
pub struct VirtPageNum(pub usize);

impl VirtAddr {
    /// The address `v` cut to the width of an Sv39 virtual address.
    pub fn new(v: usize) -> (r: VirtAddr)
        ensures
            r.0 == v as int % va_limit(),
    {
        let w: u64 = v as u64;
        let m: u64 = w & 0x7f_ffff_ffffu64;
        assert(m == w % 0x80_0000_0000u64 && m <= w) by (bit_vector)
            requires m == w & 0x7f_ffff_ffffu64;
        VirtAddr(m as usize)
    }

    /// The page number that holds this address.
    pub fn floor(&self) -> (r: VirtPageNum)
        ensures
            r.0 == vpn_floor(self.0 as int),
    {
        VirtPageNum(self.0 / PAGE_SIZE)
    }

    /// The first page number at or above this address.
    pub fn ceil(&self) -> (r: VirtPageNum)
        ensures
            r.0 == vpn_ceil(self.0 as int),
    {
        if self.0 == 0 {
            VirtPageNum(0)
        } else {
            VirtPageNum((self.0 - 1) / PAGE_SIZE + 1)
        }
    }
}

/// Bit of a page-table entry: the entry is valid.
pub const PTE_V: u8 = 0x1;

/// Bit of a page-table entry: the page may be read.
pub const PTE_R: u8 = 0x2;

/// Bit of a page-table entry: the page may be written.
pub const PTE_W: u8 = 0x4;

/// Bit of a page-table entry: the page may be executed.
pub const PTE_X: u8 = 0x8;

/// Bit of a page-table entry: the page may be reached from user mode.
pub const PTE_U: u8 = 0x10;

/// One more than the largest physical page number under Sv39 (44 bits).
pub open spec fn ppn_limit() -> int {
    0x1000_0000_0000
}

/// A page-table entry: the physical page number above bit 10, the flag bits
/// in the low byte.
#[derive(Clone, Copy, Debug, PartialEq, Eq, Structural)]
pub struct PageTableEntry {
    pub bits: u64,
}

impl PageTableEntry {
    /// Whether the entry maps a page.
    pub open spec fn valid(self) -> bool {
        self.bits % 2 == 1
    }

    /// The entry for the physical page `ppn` with the flag bits `flags`.
    pub open spec fn of(ppn: int, flags: u8) -> PageTableEntry {
        PageTableEntry { bits: (ppn * 1024 + flags) as u64 }
    }

    /// An entry that maps nothing.
    pub fn empty() -> (r: PageTableEntry)
        ensures
            r.bits == 0,
            !r.valid(),
    {
        PageTableEntry { bits: 0 }
    }

    /// The entry for the physical page `ppn` with the flag bits `flags`.
    pub fn new(ppn: usize, flags: u8) -> (r: PageTableEntry)
        requires
            ppn < ppn_limit(),
        ensures
            r == PageTableEntry::of(ppn as int, flags),
    {
        let p: u64 = ppn as u64;
        let f: u64 = flags as u64;
        assert(p < 0x1000_0000_0000u64 && f < 256u64 ==> (p << 10u64) | f == p * 1024 + f)
            by (bit_vector);
        PageTableEntry { bits: (p << 10u64) | f }
    }

    /// The physical page number of the entry: its bits from bit 10 on, cut to 44.
    pub fn ppn(&self) -> (r: usize)
        requires
            (self.bits as int / 1024) % ppn_limit() <= usize::MAX,
        ensures
            r == (self.bits as int / 1024) % ppn_limit(),
    {
        let b = self.bits;
        let p: u64 = (b >> 10u64) & 0xfff_ffff_ffffu64;
        assert(p == (b / 1024) % 0x1000_0000_0000u64) by (bit_vector)
            requires
                p == (b >> 10u64) & 0xfff_ffff_ffffu64,
        ;
        p as usize
    }

    /// The flag bits of the entry.
    pub fn flags(&self) -> (r: u8)
        ensures
            r == self.bits % 256,
    {
        let b = self.bits;
        assert(b & 0xffu64 == b % 256) by (bit_vector);
        (b & 0xffu64) as u8
    }

    /// Whether the valid bit is set.
    pub fn is_valid(&self) -> (r: bool)
        ensures
            r == self.valid(),
    {
        let b = self.bits;
        assert((b & 1u64 != 0u64) == (b % 2 == 1)) by (bit_vector);
        b & 1u64 != 0
    }
}

/// The access rights of a mapped area: a subset of the read, write, execute
/// and user bits, at the places they have in a page-table entry.
#[derive(Clone, Copy, Debug, PartialEq, Eq, Structural)]
pub struct MapPermission {
    pub bits: u8,
}

impl MapPermission {
    /// Keeps those bits of `bits` that name a permission, and drops the others.
    pub fn from_bits_truncate(bits: u8) -> (r: MapPermission)
        ensures
            r.bits == bits & 0x1e,
    {
        MapPermission { bits: bits & 0x1e }
    }

    /// The permission that lets user mode reach the area.
    pub fn user() -> (r: MapPermission)
        ensures
            r.bits == PTE_U,
    {
        MapPermission { bits: PTE_U }
    }

    /// The union of two permissions.
    pub fn union(self, other: MapPermission) -> (r: MapPermission)
        ensures
            r.bits == self.bits | other.bits,
    {
        MapPermission { bits: self.bits | other.bits }
    }
}


/// The contents of a freshly allocated frame: all bytes zero.
pub open spec fn zero_page() -> Seq<u8> {
    Seq::new(PAGE_SIZE as nat, |i: int| 0u8)
}

/// The page-table entry with which a page of permission `perm` is mapped to
/// the physical page `ppn`.
pub open spec fn leaf_entry(perm: MapPermission, ppn: int) -> PageTableEntry {
    PageTableEntry::of(ppn, perm.bits | PTE_V)
}

/// What the frame allocator holds: the next never-used frame, the end of
/// the frames it hands out, and the frames given back, last given back last.
pub struct AllocState {
    pub current: int,
    pub end: int,
    pub recycled: Seq<usize>,
}

/// How many frames the allocator can still hand out.
pub open spec fn available(s: AllocState) -> int {
    s.recycled.len() + (s.end - s.current)
}

/// One allocation: the frame given back last, if any; else the next
/// never-used frame, if any is left; else none.
pub open spec fn alloc_spec(s: AllocState) -> (Option<usize>, AllocState) {
    if s.recycled.len() > 0 {
        (Some(s.recycled.last()), AllocState { recycled: s.recycled.drop_last(), ..s })
    } else if s.current == s.end {
        (None, s)
    } else {
        (Some(s.current as usize), AllocState { current: s.current + 1, ..s })
    }
}

/// The allocator, once the frame `ppn` is given back.
pub open spec fn dealloc_spec(s: AllocState, ppn: usize) -> AllocState {
    AllocState { recycled: s.recycled.push(ppn), ..s }
}

/// The allocator of physical frames: a stack of frames given back, and a
/// range of frames not yet used.
pub struct FrameAllocator {
    pub current: usize,
    pub end: usize,
    pub recycled: Vec<usize>,
}

impl FrameAllocator {
    /// The state of the allocator.
    pub open spec fn state(&self) -> AllocState {
        AllocState { current: self.current as int, end: self.end as int, recycled: self.recycled@ }
    }

    /// The frames lie below the Sv39 limit of physical page numbers, and each
    /// frame given back is one handed out before, once.
    pub open spec fn wf(&self) -> bool {
        &&& self.current <= self.end <= ppn_limit()
        &&& forall|i: int| 0 <= i < self.recycled@.len() ==> #[trigger] self.recycled@[i] < self.current
        &&& self.recycled@.no_duplicates()
    }

    /// An allocator of the frames `[start, end)`.
    pub fn new(start: usize, end: usize) -> (r: FrameAllocator)
        requires
            start <= end <= ppn_limit(),
        ensures
            r.wf(),
            r.state() == (AllocState { current: start as int, end: end as int, recycled: Seq::empty() }),
    {
        FrameAllocator { current: start, end, recycled: Vec::new() }
    }

    /// Hands out a frame (see `alloc_spec`).
    pub fn alloc_frame(&mut self) -> (r: Option<usize>)
        requires
            old(self).wf(),
        ensures
            final(self).wf(),
            (r, final(self).state()) == alloc_spec(old(self).state()),
            final(self).current >= old(self).current,
            forall|x: usize| #[trigger] final(self).recycled@.contains(x) ==> old(self).recycled@.contains(x),
            r matches Some(p) ==> p < final(self).current && !final(self).recycled@.contains(p)
                && (old(self).recycled@.contains(p) || p >= old(self).current),
    {
        if let Some(ppn) = self.recycled.pop() {
            let ghost r = old(self).recycled@;
            assert(self.recycled@ =~= r.drop_last());
            assert(r[r.len() - 1] == ppn);
            assert(r[r.len() - 1] < old(self).current);
            proof {
                assert forall|x: usize| #[trigger] self.recycled@.contains(x) implies r.contains(x) by {
                    let k = choose|k: int| 0 <= k < self.recycled@.len() && self.recycled@[k] == x;
                    assert(r[k] == x);
                }
                if self.recycled@.contains(ppn) {
                    let k = choose|k: int| 0 <= k < self.recycled@.len() && self.recycled@[k] == ppn;
                    assert(r[k] == r[r.len() - 1]);
                }
            }
            Some(ppn)
        } else if self.current == self.end {
            None
        } else {
            self.current = self.current + 1;
            Some(self.current - 1)
        }
    }

    /// Takes back the frame `ppn`, which must have been handed out and not
    /// given back since.
    pub fn dealloc_frame(&mut self, ppn: usize)
        requires
            old(self).wf(),
            ppn < old(self).current,
            !old(self).recycled@.contains(ppn),
        ensures
            final(self).wf(),
            final(self).state() == dealloc_spec(old(self).state(), ppn),
    {
        self.recycled.push(ppn);
    }
}

/// The level-1 page table that holds the page `vpn`: one per 2^18 pages.
pub open spec fn l1_index(vpn: int) -> int {
    vpn / 0x40000
}

/// The leaf page table that holds the page `vpn`: one per 2^9 pages.
pub open spec fn leaf_index(vpn: int) -> int {
    vpn / 0x200
}

/// The page tables of an address space and the frame allocator: the leaf
/// entries by page, the level-1 and leaf tables by index with their frames.
pub struct PtState {
    pub ptes: Map<usize, PageTableEntry>,
    pub l1: Map<usize, usize>,
    pub leaf: Map<usize, usize>,
    pub alloc: AllocState,
}

/// The number of frames that mapping the page `v` takes: its own, and one
/// for each page table on its path not yet made.
pub open spec fn frames_for(s: PtState, v: int) -> int {
    1 + (if s.l1.contains_key(l1_index(v) as usize) { 0int } else { 1int }) + (if s.leaf.contains_key(
        leaf_index(v) as usize,
    ) {
        0int
    } else {
        1int
    })
}

/// Mapping the page `v` with permission `perm`: a frame for the page, then
/// a frame for its level-1 table if that is missing, then one for its leaf
/// table if that is missing, each from the allocator in turn; the entry of
/// `v` then points at the page's frame.
pub open spec fn map_step(s: PtState, v: int, perm: MapPermission) -> PtState {
    let (d, a1) = alloc_spec(s.alloc);
    let (l1, a2) = if s.l1.contains_key(l1_index(v) as usize) {
        (s.l1, a1)
    } else {
        let (t, a) = alloc_spec(a1);
        (s.l1.insert(l1_index(v) as usize, t.unwrap()), a)
    };
    let (leaf, a3) = if s.leaf.contains_key(leaf_index(v) as usize) {
        (s.leaf, a2)
    } else {
        let (t, a) = alloc_spec(a2);
        (s.leaf.insert(leaf_index(v) as usize, t.unwrap()), a)
    };
    PtState { ptes: s.ptes.insert(v as usize, leaf_entry(perm, d.unwrap() as int)), l1, leaf, alloc: a3 }
}

/// The frame that mapping the page `v` gives it.
pub open spec fn page_frame(s: PtState) -> usize {
    alloc_spec(s.alloc).0.unwrap()
}

/// Mapping the pages `[v, hi)` in turn.
pub open spec fn map_all(s: PtState, v: int, hi: int, perm: MapPermission) -> PtState
    decreases hi - v,
{
    if v >= hi {
        s
    } else {
        map_all(map_step(s, v, perm), v + 1, hi, perm)
    }
}

/// Mapping the pages `[v, hi)` in turn never runs out of frames.
pub open spec fn map_all_fits(s: PtState, v: int, hi: int, perm: MapPermission) -> bool
    decreases hi - v,
{
    v >= hi || (available(s.alloc) >= frames_for(s, v) && map_all_fits(
        map_step(s, v, perm),
        v + 1,
        hi,
        perm,
    ))
}

/// The user address space of a task: its page table (leaf entries by page,
/// level-1 and leaf tables by index with their frames), the bytes of the frame
/// behind each valid entry, by page, and the frame of the root page table.
pub struct MemorySet {
    pub page_table: HashMapWithView<usize, PageTableEntry>,
    pub l1_tables: HashMapWithView<usize, usize>,
    pub leaf_tables: HashMapWithView<usize, usize>,
    pub frames: HashMapWithView<usize, Vec<u8>>,
    pub root_ppn: usize,
}

impl MemorySet {
    /// The leaf entries that have been written, valid or not.
    pub open spec fn ptes(&self) -> Map<usize, PageTableEntry> {
        self.page_table@
    }

    /// The page tables, with the allocator `alloc`.
    pub open spec fn pt_state(&self, alloc: AllocState) -> PtState {
        PtState { ptes: self.page_table@, l1: self.l1_tables@, leaf: self.leaf_tables@, alloc }
    }

    /// What a walk of the page table finds for the page `vpn`: nothing where
    /// its leaf table is missing, else its entry (empty if never written).
    pub open spec fn entry(&self, vpn: usize) -> Option<PageTableEntry> {
        if self.leaf_tables@.contains_key(leaf_index(vpn as int) as usize) {
            Some(
                if self.ptes().contains_key(vpn) {
                    self.ptes()[vpn]
                } else {
                    PageTableEntry { bits: 0 }
                },
            )
        } else {
            None
        }
    }

    /// Whether the page `vpn` has a valid entry.
    pub open spec fn maps(&self, vpn: usize) -> bool {
        self.ptes().contains_key(vpn) && self.ptes()[vpn].valid()
    }

    /// The bytes of the frame behind the page `vpn`.
    pub open spec fn page(&self, vpn: usize) -> Seq<u8> {
        self.frames@[vpn]@
    }

    /// The byte at the user address `va`.
    pub open spec fn byte(&self, va: usize) -> u8 {
        self.frames@[va / PAGE_SIZE]@[(va % PAGE_SIZE) as int]
    }

    /// Whether each byte of `[va, va + len)` lies in a mapped page.
    pub open spec fn range_mapped(&self, va: int, len: int) -> bool {
        forall|a: usize| va <= a < va + len ==> #[trigger] self.maps(a / PAGE_SIZE)
    }

    /// A frame stands behind each valid entry and behind nothing else, each
    /// frame holds a page of bytes, each written entry lies in a leaf table,
    /// and each leaf table in a level-1 table.
    pub open spec fn wf(&self) -> bool {
        &&& forall|v: usize| #[trigger]
            self.frames@.contains_key(v) == (self.ptes().contains_key(v)
                && self.ptes()[v].valid())
        &&& forall|v: usize| #[trigger]
            self.frames@.contains_key(v) ==> self.frames@[v]@.len() == PAGE_SIZE
        &&& forall|v: usize| #[trigger]
            self.ptes().contains_key(v) ==> self.leaf_tables@.contains_key(
                leaf_index(v as int) as usize,
            )
        &&& forall|b: usize| #[trigger]
            self.leaf_tables@.contains_key(b) ==> self.l1_tables@.contains_key(b / 512)
        &&& self.root_ppn < 0x1000_0000_0000
    }

    /// `self` is `old` with `data` written at the user addresses from `va` on:
    /// the page table and the set of frames are those of `old`, and each
    /// mapped byte is that of `data` inside the range and that of `old` outside it.
    pub open spec fn wrote(&self, old: &MemorySet, va: usize, data: Seq<u8>) -> bool {
        &&& self.ptes() == old.ptes()
        &&& self.same_tables(old)
        &&& self.frames@.dom() == old.frames@.dom()
        &&& self.root_ppn == old.root_ppn
        &&& forall|a: usize|
            #![trigger self.byte(a)]
            old.maps(a / PAGE_SIZE) ==> self.byte(a) == (if va <= a < va + data.len() {
                data[a - va]
            } else {
                old.byte(a)
            })
    }

    /// Outside the pages `[lo, hi)`, `self` has the entries and frames of `old`.
    pub open spec fn same_outside(&self, old: &MemorySet, lo: int, hi: int) -> bool {
        &&& forall|v: usize| !(lo <= v < hi) ==> #[trigger] self.ptes().contains_key(v)
            == old.ptes().contains_key(v)
        &&& forall|v: usize| !(lo <= v < hi) && old.ptes().contains_key(v)
            ==> #[trigger] self.ptes()[v] == old.ptes()[v]
        &&& forall|v: usize| !(lo <= v < hi) ==> #[trigger] self.frames@.contains_key(v)
            == old.frames@.contains_key(v)
        &&& forall|v: usize| !(lo <= v < hi) && old.frames@.contains_key(v)
            ==> #[trigger] self.frames@[v] == old.frames@[v]
        &&& self.root_ppn == old.root_ppn
    }

    /// Each page of `[lo, hi)` is mapped, to a zeroed frame.
    pub open spec fn fresh_in(&self, lo: int, hi: int) -> bool {
        forall|v: usize|
            lo <= v < hi ==> {
                &&& #[trigger] self.maps(v)
                &&& self.frames@.contains_key(v)
                &&& self.page(v) == zero_page()
            }
    }

    /// `self` has the page tables of `old`.
    pub open spec fn same_tables(&self, old: &MemorySet) -> bool {
        &&& self.l1_tables@ == old.l1_tables@
        &&& self.leaf_tables@ == old.leaf_tables@
    }

    /// Each page of `[lo, hi)` has an empty entry and no frame.
    pub open spec fn cleared_in(&self, lo: int, hi: int) -> bool {
        forall|v: usize|
            lo <= v < hi ==> {
                &&& #[trigger] self.ptes().contains_key(v)
                &&& self.ptes()[v].bits == 0
                &&& !self.frames@.contains_key(v)
            }
    }

    /// An address space with no page mapped, whose root page table is the frame `root_ppn`.
    pub fn new(root_ppn: usize) -> (r: MemorySet)
        requires
            root_ppn < 0x1000_0000_0000,
        ensures
            r.wf(),
            r.ptes() == Map::<usize, PageTableEntry>::empty(),
            r.l1_tables@ == Map::<usize, usize>::empty(),
            r.leaf_tables@ == Map::<usize, usize>::empty(),
            r.frames@ == Map::<usize, Vec<u8>>::empty(),
            r.root_ppn == root_ppn,
    {
        MemorySet {
            page_table: HashMapWithView::new(),
            l1_tables: HashMapWithView::new(),
            leaf_tables: HashMapWithView::new(),
            frames: HashMapWithView::new(),
            root_ppn,
        }
    }

    /// The value of the `satp` register that selects this address space:
    /// Sv39 mode and the root page table's frame.
    pub fn token(&self) -> (r: u64)
        requires
            self.wf(),
        ensures
            r == 0x8000_0000_0000_0000 + self.root_ppn,
    {
        let p: u64 = self.root_ppn as u64;
        assert(p < 0x1000_0000_0000u64 ==> (8u64 << 60u64) | p == 0x8000_0000_0000_0000u64 + p)
            by (bit_vector);
        (8u64 << 60u64) | p
    }

    /// The entry that a walk of the page table finds for the page `vpn`:
    /// `None` where its leaf table is missing, else its entry (empty if none
    /// was written).
    pub fn translate(&self, vpn: VirtPageNum) -> (r: Option<PageTableEntry>)
        ensures
            r == self.entry(vpn.0),
    {
        if self.leaf_tables.contains_key(&(vpn.0 / 0x200)) {
            match self.page_table.get(&vpn.0) {
                Some(e) => Some(*e),
                None => Some(PageTableEntry::empty()),
            }
        } else {
            None
        }
    }

    /// Maps the page `vpn` with permission `perm`: takes a zeroed frame for it,
    /// then frames for the page tables on its path that are missing (see
    /// `map_step`). Returns the page's frame.
    pub fn map_one(&mut self, fa: &mut FrameAllocator, vpn: VirtPageNum, perm: MapPermission) -> (r: usize)
        requires
            old(self).wf(),
            old(fa).wf(),
            !old(self).maps(vpn.0),
            available(old(fa).state()) >= frames_for(old(self).pt_state(old(fa).state()), vpn.0 as int),
        ensures
            final(self).wf(),
            final(fa).wf(),
            final(self).pt_state(final(fa).state()) == map_step(
                old(self).pt_state(old(fa).state()),
                vpn.0 as int,
                perm,
            ),
            r == page_frame(old(self).pt_state(old(fa).state())),
            r < final(fa).current,
            !final(fa).recycled@.contains(r),
            old(fa).recycled@.contains(r) || r >= old(fa).current,
            final(fa).current >= old(fa).current,
            forall|x: usize| #[trigger] final(fa).recycled@.contains(x) ==> old(fa).recycled@.contains(x),
            final(self).same_outside(old(self), vpn.0 as int, vpn.0 + 1),
            final(self).fresh_in(vpn.0 as int, vpn.0 + 1),
    {
        let ppn = fa.alloc_frame().unwrap();
        let l1 = vpn.0 / 0x40000;
        if !self.l1_tables.contains_key(&l1) {
            let t = fa.alloc_frame().unwrap();
            assert(!fa.recycled@.contains(ppn));
            self.l1_tables.insert(l1, t);
        }
        let leaf = vpn.0 / 0x200;
        if !self.leaf_tables.contains_key(&leaf) {
            let t = fa.alloc_frame().unwrap();
            assert(!fa.recycled@.contains(ppn));
            self.leaf_tables.insert(leaf, t);
        }
        let b = perm.bits;
        assert((b | 1u8) % 2 == 1) by (bit_vector);
        let e = PageTableEntry::new(ppn, perm.bits | PTE_V);
        assert((e.bits as int) % 2 == 1);
        self.page_table.insert(vpn.0, e);
        let page: Vec<u8> = vec![0u8; PAGE_SIZE];
        assert(page@ =~= zero_page());
        self.frames.insert(vpn.0, page);
        ppn
    }

    /// Clears the entry of the mapped page `vpn` and frees its frame.
    pub fn unmap_one(&mut self, vpn: VirtPageNum)
        requires
            old(self).wf(),
            old(self).maps(vpn.0),
        ensures
            final(self).wf(),
            final(self).same_outside(old(self), vpn.0 as int, vpn.0 + 1),
            final(self).cleared_in(vpn.0 as int, vpn.0 + 1),
            final(self).same_tables(old(self)),
    {
        self.page_table.insert(vpn.0, PageTableEntry::empty());
        let _ = self.frames.remove(&vpn.0);
    }

    /// Maps each page of `[lo, hi)` in turn with permission `perm` (see `map_all`).
    pub fn map_range(&mut self, fa: &mut FrameAllocator, lo: VirtPageNum, hi: VirtPageNum, perm: MapPermission)
        requires
            old(self).wf(),
            old(fa).wf(),
            lo.0 <= hi.0,
            forall|v: usize| lo.0 <= v < hi.0 ==> !#[trigger] old(self).maps(v),
            map_all_fits(old(self).pt_state(old(fa).state()), lo.0 as int, hi.0 as int, perm),
        ensures
            final(self).wf(),
            final(fa).wf(),
            final(self).pt_state(final(fa).state()) == map_all(
                old(self).pt_state(old(fa).state()),
                lo.0 as int,
                hi.0 as int,
                perm,
            ),
            final(self).same_outside(old(self), lo.0 as int, hi.0 as int),
            final(self).fresh_in(lo.0 as int, hi.0 as int),
    {
        let mut v = lo.0;
        while v < hi.0
            invariant
                lo.0 <= v <= hi.0,
                self.wf(),
                fa.wf(),
                self.same_outside(old(self), lo.0 as int, hi.0 as int),
                self.fresh_in(lo.0 as int, v as int),
                forall|u: usize| v <= u < hi.0 ==> #[trigger] self.ptes().contains_key(u)
                    == old(self).ptes().contains_key(u),
                forall|u: usize| v <= u < hi.0 && old(self).ptes().contains_key(u)
                    ==> #[trigger] self.ptes()[u] == old(self).ptes()[u],
                forall|u: usize| v <= u < hi.0 ==> !#[trigger] old(self).maps(u),
                map_all(self.pt_state(fa.state()), v as int, hi.0 as int, perm) == map_all(
                    old(self).pt_state(old(fa).state()),
                    lo.0 as int,
                    hi.0 as int,
                    perm,
                ),
                map_all_fits(self.pt_state(fa.state()), v as int, hi.0 as int, perm),
            decreases hi.0 - v,
        {
            assert(!old(self).maps(v));
            assert(!self.maps(v));
            let ghost prev: MemorySet = *self;
            self.map_one(fa, VirtPageNum(v), perm);
            proof {
                lemma_fresh_in_extend(prev, *self, lo.0 as int, v as int);
            }
            v = v + 1;
        }
    }

    /// Writes `data` to the user addresses `[va, va + data.len())`.
    pub fn write_bytes(&mut self, va: usize, data: &Vec<u8>)
        requires
            old(self).wf(),
            va + data.len() <= usize::MAX,
            old(self).range_mapped(va as int, data.len() as int),
        ensures
            final(self).wf(),
            final(self).wrote(old(self), va, data@),
    {
        let n = data.len();
        let mut i: usize = 0;
        while i < n
            invariant
                n == data.len(),
                va + n <= usize::MAX,
                i <= n,
                self.wf(),
                self.ptes() == old(self).ptes(),
                self.same_tables(old(self)),
                self.frames@.dom() == old(self).frames@.dom(),
                self.root_ppn == old(self).root_ppn,
                old(self).range_mapped(va as int, n as int),
                forall|a: usize|
                    #![trigger self.byte(a)]
                    old(self).maps(a / PAGE_SIZE) ==> self.byte(a) == (if va <= a < va + i {
                        data@[a - va]
                    } else {
                        old(self).byte(a)
                    }),
            decreases n - i,
        {
            let a = va + i;
            let vpn = a / PAGE_SIZE;
            let off = a % PAGE_SIZE;
            assert(old(self).maps(a / PAGE_SIZE));
            let ghost prev: MemorySet = *self;
            let ghost before = self.frames@;
            let mut page = self.frames.remove(&vpn).unwrap();
            let ghost old_page = page@;
            page.set(off, data[i]);
            self.frames.insert(vpn, page);
            assert(self.frames@ == before.insert(vpn, page));
            assert forall|b: usize| #![trigger self.byte(b)]
                old(self).maps(b / PAGE_SIZE) implies self.byte(b) == (if va <= b < va + i + 1 {
                    data@[b - va]
                } else {
                    old(self).byte(b)
                }) by {
                assert(prev.byte(b) == (if va <= b < va + i {
                    data@[b - va]
                } else {
                    old(self).byte(b)
                }));
                assert(b == (b / PAGE_SIZE) * PAGE_SIZE + b % PAGE_SIZE);
                assert(a == (a / PAGE_SIZE) * PAGE_SIZE + a % PAGE_SIZE);
                if b / PAGE_SIZE == vpn {
                    assert(self.frames@[vpn]@ == old_page.update(off as int, data@[i as int]));
                    if b % PAGE_SIZE == off {
                        assert(b == a);
                    } else {
                        assert(b != a);
                    }
                } else {
                    assert(b != a);
                    assert(self.frames@[b / PAGE_SIZE] == before[b / PAGE_SIZE]);
                }
            }
            i = i + 1;
        }
    }

    /// The bytes at the user addresses `[va, va + len)`.
    pub fn read_bytes(&self, va: usize, len: usize) -> (r: Vec<u8>)
        requires
            self.wf(),
            va + len <= usize::MAX,
            self.range_mapped(va as int, len as int),
        ensures
            r@.len() == len,
            forall|i: int| 0 <= i < len ==> #[trigger] r@[i] == self.byte((va + i) as usize),
    {
        let mut out: Vec<u8> = Vec::new();
        let mut i: usize = 0;
        while i < len
            invariant
                va + len <= usize::MAX,
                i <= len,
                self.wf(),
                self.range_mapped(va as int, len as int),
                out@.len() == i,
                forall|j: int| 0 <= j < i ==> #[trigger] out@[j] == self.byte((va + j) as usize),
            decreases len - i,
        {
            let a = va + i;
            assert(self.maps(a / PAGE_SIZE));
            let page = self.frames.get(&(a / PAGE_SIZE)).unwrap();
            out.push(page[a % PAGE_SIZE]);
            i = i + 1;
        }
        out
    }

    /// The first page of `[v, hi)` that is not mapped, or `hi` if there is none.
    pub open spec fn first_unmapped(&self, v: int, hi: int) -> int
        decreases hi - v,
    {
        if v >= hi {
            hi
        } else if !self.maps(v as usize) {
            v
        } else {
            self.first_unmapped(v + 1, hi)
        }
    }
}

/// A write to user memory is read back: once `data` is written at `va` over
/// mapped pages, the bytes from `va` on are those of `data`, and the range is
/// still mapped.
pub proof fn lemma_read_after_write(old: MemorySet, new: MemorySet, va: usize, data: Seq<u8>)
    requires
        va + data.len() <= usize::MAX,
        old.range_mapped(va as int, data.len() as int),
        new.wrote(&old, va, data),
    ensures
        new.range_mapped(va as int, data.len() as int),
        forall|i: int| 0 <= i < data.len() ==> #[trigger] new.byte((va + i) as usize) == data[i],
{
    assert forall|i: int| 0 <= i < data.len() implies #[trigger] new.byte((va + i) as usize)
        == data[i] by {
        assert(old.maps(((va + i) as usize) / PAGE_SIZE));
    }
    assert forall|a: usize| va <= a < va + data.len() implies #[trigger] new.maps(a / PAGE_SIZE) by {
        assert(old.maps(a / PAGE_SIZE));
    }
}

/// When every page of `[v, hi)` is mapped, `first_unmapped` finds none.
pub proof fn lemma_first_unmapped_all_mapped(ms: MemorySet, v: int, hi: int)
    requires
        0 <= v,
        hi <= usize::MAX + 1,
        forall|u: usize| v <= u < hi ==> #[trigger] ms.maps(u),
    ensures
        ms.first_unmapped(v, hi) == hi,
    decreases hi - v,
{
    if v < hi {
        assert(ms.maps(v as usize));
        lemma_first_unmapped_all_mapped(ms, v + 1, hi);
    }
}

/// Mapping one more page keeps the pages mapped before fresh.
pub proof fn lemma_fresh_in_extend(prev: MemorySet, next: MemorySet, lo: int, v: int)
    requires
        prev.fresh_in(lo, v),
        next.same_outside(&prev, v, v + 1),
        next.fresh_in(v, v + 1),
    ensures
        next.fresh_in(lo, v + 1),
{
    assert forall|u: usize| lo <= u < v + 1 implies {
        &&& #[trigger] next.maps(u)
        &&& next.frames@.contains_key(u)
        &&& next.page(u) == zero_page()
    } by {
        if u < v {
            assert(prev.maps(u));
            assert(prev.ptes().contains_key(u));
            assert(prev.frames@.contains_key(u));
            assert(next.ptes().contains_key(u) == prev.ptes().contains_key(u));
            assert(next.ptes()[u] == prev.ptes()[u]);
            assert(next.frames@.contains_key(u) == prev.frames@.contains_key(u));
            assert(next.frames@[u] == prev.frames@[u]);
        } else {
            assert(u == v);
            assert(next.maps(u));
        }
    }
}


/// The first page at or above an address, in plain arithmetic.
pub proof fn lemma_vpn_ceil_value(va: int)
    requires
        0 <= va,
    ensures
        vpn_ceil(va) == (va + 4095) / 4096,
        vpn_floor(va) == va / 4096,
{
}

/// `first_unmapped(v, hi)` lies at or below `hi` (and at or above `v` when
/// `v <= hi`), every page before it from `v` on is mapped, and it is itself
/// unmapped unless it is `hi`.
pub proof fn lemma_first_unmapped_props(ms: MemorySet, v: int, hi: int)
    requires
        0 <= v,
        hi <= usize::MAX + 1,
    ensures
        ms.first_unmapped(v, hi) <= hi,
        v <= hi ==> v <= ms.first_unmapped(v, hi),
        forall|u: usize| v <= u < ms.first_unmapped(v, hi) ==> #[trigger] ms.maps(u),
        ms.first_unmapped(v, hi) < hi ==> !ms.maps(ms.first_unmapped(v, hi) as usize),
    decreases hi - v,
{
    if v < hi && ms.maps(v as usize) {
        lemma_first_unmapped_props(ms, v + 1, hi);
    }
}

/// Mapping the pages `[v, hi)` in turn leaves every other entry as it was.
pub proof fn lemma_map_all_keeps(s: PtState, v: int, hi: int, perm: MapPermission, u: usize)
    requires
        0 <= v,
        hi <= usize::MAX + 1,
        !(v <= u < hi),
    ensures
        map_all(s, v, hi, perm).ptes.contains_key(u) == s.ptes.contains_key(u),
        s.ptes.contains_key(u) ==> map_all(s, v, hi, perm).ptes[u] == s.ptes[u],
    decreases hi - v,
{
    if v < hi {
        lemma_map_all_keeps(map_step(s, v, perm), v + 1, hi, perm, u);
    }
}

/// Mapping the pages `[v, hi)` in turn gives each of them an entry with the
/// permission `perm` and the valid bit, pointing at some frame.
pub proof fn lemma_map_all_entries(s: PtState, v: int, hi: int, perm: MapPermission)
    requires
        0 <= v,
        hi <= usize::MAX + 1,
    ensures
        forall|u: usize|
            v <= u < hi ==> #[trigger] map_all(s, v, hi, perm).ptes.contains_key(u) && exists|p: usize|
                map_all(s, v, hi, perm).ptes[u] == PageTableEntry::of(p as int, perm.bits | PTE_V),
    decreases hi - v,
{
    if v < hi {
        let s1 = map_step(s, v, perm);
        lemma_map_all_entries(s1, v + 1, hi, perm);
        lemma_map_all_keeps(s1, v + 1, hi, perm, v as usize);
        let p = page_frame(s);
        assert(s1.ptes[v as usize] == PageTableEntry::of(p as int, perm.bits | PTE_V));
        assert forall|u: usize| v <= u < hi implies #[trigger] map_all(s, v, hi, perm).ptes.contains_key(u)
            && exists|q: usize| map_all(s, v, hi, perm).ptes[u] == PageTableEntry::of(
                q as int,
                perm.bits | PTE_V,
            ) by {
            if u == v {
                assert(map_all(s, v, hi, perm).ptes[u] == PageTableEntry::of(p as int, perm.bits | PTE_V));
            }
        }
    }
}

} // verus!
