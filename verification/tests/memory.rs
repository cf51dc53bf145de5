use rcore_os::config::PAGE_SIZE;
use rcore_os::mm::{
    FrameAllocator, MapPermission, MemorySet, PageTableEntry, VirtAddr, VirtPageNum, PTE_R, PTE_U, PTE_V, PTE_W,
};
use rcore_os::task::{current_user_token, TaskControlBlock, TaskManager};
use rcore_os::trap::TrapContext;

#[test]
fn virt_addr_is_cut_to_39_bits() {
    assert_eq!(VirtAddr::new(0x1234).0, 0x1234);
    assert_eq!(VirtAddr::new(0x80_0000_1000).0, 0x1000);
    assert_eq!(VirtAddr::new(usize::MAX).0, 0x7f_ffff_ffff);
}

#[test]
fn floor_and_ceil_of_addresses() {
    assert_eq!(VirtAddr(0).floor().0, 0);
    assert_eq!(VirtAddr(0).ceil().0, 0);
    assert_eq!(VirtAddr(0x1000).floor().0, 1);
    assert_eq!(VirtAddr(0x1000).ceil().0, 1);
    assert_eq!(VirtAddr(0x1001).floor().0, 1);
    assert_eq!(VirtAddr(0x1001).ceil().0, 2);
    assert_eq!(VirtAddr(0xfff).ceil().0, 1);
}

#[test]
fn page_table_entry_flags() {
    assert!(!PageTableEntry::empty().is_valid());
    assert!(PageTableEntry::new(5, PTE_V | PTE_R).is_valid());
    assert!(!PageTableEntry::new(5, PTE_R | PTE_W).is_valid());
    assert_eq!(PageTableEntry::new(5, 0x13).flags(), 0x13);
}

#[test]
fn page_table_entry_holds_the_frame() {
    let e = PageTableEntry::new(0x80123, 0x13);
    assert_eq!(e.bits, (0x80123u64 << 10) | 0x13);
    assert_eq!(e.ppn(), 0x80123);
    assert_eq!(e.flags(), 0x13);
    assert_eq!(PageTableEntry::new(0xfff_ffff_ffff, 0xff).ppn(), 0xfff_ffff_ffff);
    assert_eq!(PageTableEntry::empty().ppn(), 0);
}

#[test]
fn frame_allocator_hands_out_in_order_and_reuses_last_freed() {
    let mut fa = FrameAllocator::new(0x10, 0x13);
    assert_eq!(fa.alloc_frame(), Some(0x10));
    assert_eq!(fa.alloc_frame(), Some(0x11));
    fa.dealloc_frame(0x10);
    fa.dealloc_frame(0x11);
    assert_eq!(fa.alloc_frame(), Some(0x11));
    assert_eq!(fa.alloc_frame(), Some(0x10));
    assert_eq!(fa.alloc_frame(), Some(0x12));
    assert_eq!(fa.alloc_frame(), None);
}

#[test]
fn map_permission_truncates_and_unions() {
    assert_eq!(MapPermission::from_bits_truncate(0xff).bits, 0x1e);
    assert_eq!(MapPermission::from_bits_truncate(0x06).bits, 0x06);
    let p = MapPermission::from_bits_truncate(PTE_R).union(MapPermission::user());
    assert_eq!(p.bits, PTE_R | PTE_U);
}

#[test]
fn map_then_translate_and_unmap() {
    let mut fa = FrameAllocator::new(0x100, 0x200);
    let mut ms = MemorySet::new(7);
    assert_eq!(ms.translate(VirtPageNum(3)), None);
    ms.map_range(&mut fa, VirtPageNum(3), VirtPageNum(5), MapPermission { bits: PTE_R | PTE_U });
    // page 3 takes a frame, then its level-1 and leaf tables take one each
    assert_eq!(ms.translate(VirtPageNum(3)), Some(PageTableEntry::new(0x100, PTE_V | PTE_R | PTE_U)));
    assert_eq!(ms.translate(VirtPageNum(4)), Some(PageTableEntry::new(0x103, PTE_V | PTE_R | PTE_U)));
    assert_eq!(fa.current, 0x104);
    // page 5 shares the leaf table of pages 3 and 4: its entry is empty
    assert_eq!(ms.translate(VirtPageNum(5)), Some(PageTableEntry::empty()));
    // page 0x200 lies in a leaf table that does not exist
    assert_eq!(ms.translate(VirtPageNum(0x200)), None);
    ms.unmap_one(VirtPageNum(3));
    assert_eq!(ms.translate(VirtPageNum(3)), Some(PageTableEntry::empty()));
    ms.unmap_one(VirtPageNum(4));
    assert_eq!(ms.translate(VirtPageNum(4)), Some(PageTableEntry::empty()));
}

#[test]
fn map_one_returns_the_page_frame_and_makes_missing_tables() {
    let mut fa = FrameAllocator::new(0x100, 0x200);
    let mut ms = MemorySet::new(7);
    let perm = MapPermission { bits: PTE_R };
    assert_eq!(ms.map_one(&mut fa, VirtPageNum(0), perm), 0x100);
    assert_eq!(ms.map_one(&mut fa, VirtPageNum(1), perm), 0x103);
    // a new leaf table under the same level-1 table
    assert_eq!(ms.map_one(&mut fa, VirtPageNum(0x200), perm), 0x104);
    assert_eq!(fa.current, 0x106);
    // a new level-1 table and a new leaf table
    assert_eq!(ms.map_one(&mut fa, VirtPageNum(0x40000), perm), 0x106);
    assert_eq!(fa.current, 0x109);
    assert_eq!(ms.l1_tables.len(), 2);
    assert_eq!(ms.leaf_tables.len(), 3);
}

#[test]
fn fresh_pages_read_zero() {
    let mut fa = FrameAllocator::new(0x100, 0x200);
    let mut ms = MemorySet::new(0);
    ms.map_one(&mut fa, VirtPageNum(2), MapPermission { bits: PTE_R | PTE_W });
    assert_eq!(ms.read_bytes(2 * PAGE_SIZE, PAGE_SIZE), vec![0u8; PAGE_SIZE]);
}

#[test]
fn read_after_write_across_a_page_boundary() {
    let mut fa = FrameAllocator::new(0x100, 0x200);
    let mut ms = MemorySet::new(0);
    ms.map_range(&mut fa, VirtPageNum(1), VirtPageNum(3), MapPermission { bits: PTE_R | PTE_W });
    let va = 2 * PAGE_SIZE - 3;
    let data: Vec<u8> = (1..=8).collect();
    ms.write_bytes(va, &data);
    assert_eq!(ms.read_bytes(va, 8), data);
    assert_eq!(ms.read_bytes(va - 1, 1), vec![0]);
    assert_eq!(ms.read_bytes(va + 8, 1), vec![0]);
    let mut again = data.clone();
    again.reverse();
    ms.write_bytes(va + 2, &again[..4].to_vec());
    assert_eq!(ms.read_bytes(va, 8), vec![1, 2, 8, 7, 6, 5, 7, 8]);
}

#[test]
fn unmapped_page_loses_its_contents() {
    let mut fa = FrameAllocator::new(0x100, 0x200);
    let mut ms = MemorySet::new(0);
    ms.map_one(&mut fa, VirtPageNum(9), MapPermission { bits: PTE_R | PTE_W });
    ms.write_bytes(9 * PAGE_SIZE, &vec![0xaa; 4]);
    ms.unmap_one(VirtPageNum(9));
    ms.map_one(&mut fa, VirtPageNum(9), MapPermission { bits: PTE_R });
    assert_eq!(ms.read_bytes(9 * PAGE_SIZE, 4), vec![0; 4]);
}

#[test]
fn token_selects_sv39_and_root_frame() {
    assert_eq!(MemorySet::new(0x80123).token(), 0x8000_0000_0008_0123);
    let cx = TrapContext::app_init_context(0, 0, 0, 0, 0, 0);
    let tm = TaskManager::new(vec![TaskControlBlock::new(MemorySet::new(0x42), 0, cx)], FrameAllocator::new(0, 0));
    assert_eq!(current_user_token(&tm), 0x8000_0000_0000_0042);
}
