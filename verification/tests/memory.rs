//! Frame source and page-table behaviour on synthetic memory maps.

use cruzos::allocator::{alloc_user_code, free_user_code, init, HEAP_SIZE, HEAP_START};
use cruzos::memory::{
    map_virt, unmap_virt, virt2phys, FrameAllocator, MapError, MemRegion, Page, PageTableFlags,
    PageTableNode, FLAG_PRESENT, FLAG_WRITABLE, PAGE_SIZE,
};

fn simple_map(start: u64, frames: u64) -> FrameAllocator {
    FrameAllocator::new(vec![MemRegion {
        start,
        end: start + frames * PAGE_SIZE,
        usable: true,
    }])
}

#[test]
fn frames_come_in_order_and_aligned() {
    let mut fa = simple_map(0x10000, 3);
    assert_eq!(fa.allocate_frame(), Some(0x10000));
    assert_eq!(fa.allocate_frame(), Some(0x11000));
    assert_eq!(fa.allocate_frame(), Some(0x12000));
    assert_eq!(fa.allocate_frame(), None);
    assert_eq!(fa.allocate_frame(), None);
}

#[test]
fn unaligned_regions_are_split_to_aligned_frames() {
    let mut fa = FrameAllocator::new(vec![MemRegion {
        start: 0x10010,
        end: 0x13000,
        usable: true,
    }]);
    // the first full frame starts at the next frame boundary
    assert_eq!(fa.allocate_frame(), Some(0x11000));
    assert_eq!(fa.allocate_frame(), Some(0x12000));
    assert_eq!(fa.allocate_frame(), None);
}

#[test]
fn reserved_regions_contribute_no_frames() {
    let mut fa = FrameAllocator::new(vec![
        MemRegion { start: 0x10000, end: 0x20000, usable: false },
        MemRegion { start: 0x30000, end: 0x31000, usable: true },
        MemRegion { start: 0x40000, end: 0x40800, usable: true },
    ]);
    assert_eq!(fa.allocate_frame(), Some(0x30000));
    // the half-frame region holds no full frame
    assert_eq!(fa.allocate_frame(), None);
}

#[test]
fn map_then_translate_round_trip() {
    let mut l4 = PageTableNode::zeroed();
    let mut fa = simple_map(0xb8000, 8);
    let flags = PageTableFlags::new(FLAG_PRESENT | FLAG_WRITABLE);
    let page = Page::containing_address(0xb8000);
    // the first usable frame is the identically-addressed one
    let frame = map_virt(&mut l4, page, flags, &mut fa).unwrap();
    assert_eq!(frame, 0xb8000);
    assert_eq!(virt2phys(&l4, 0xb8000), Some(0xb8000));
    assert_eq!(virt2phys(&l4, 0xb8123), Some(0xb8123));
    assert_eq!(virt2phys(&l4, 0xb9000), None);
}

#[test]
fn double_map_is_a_protocol_violation() {
    let mut l4 = PageTableNode::zeroed();
    let mut fa = simple_map(0x100000, 16);
    let flags = PageTableFlags::new(FLAG_PRESENT | FLAG_WRITABLE);
    let page = Page::containing_address(0xdead_b000);
    map_virt(&mut l4, page, flags, &mut fa).unwrap();
    let again = map_virt(&mut l4, page, flags, &mut fa);
    assert_eq!(again, Err(MapError::AlreadyMapped));
}

#[test]
fn double_unmap_is_a_protocol_violation() {
    let mut l4 = PageTableNode::zeroed();
    let mut fa = simple_map(0x100000, 16);
    let flags = PageTableFlags::new(FLAG_PRESENT);
    let page = Page::containing_address(0x5000);
    // never mapped
    assert_eq!(unmap_virt(&mut l4, page), Err(MapError::NotMapped));
    map_virt(&mut l4, page, flags, &mut fa).unwrap();
    assert_eq!(unmap_virt(&mut l4, page), Ok(()));
    // already unmapped again
    assert_eq!(unmap_virt(&mut l4, page), Err(MapError::NotMapped));
}

#[test]
fn unmap_clears_only_its_page() {
    let mut l4 = PageTableNode::zeroed();
    let mut fa = simple_map(0x200000, 16);
    let flags = PageTableFlags::new(FLAG_PRESENT);
    let p1 = Page::containing_address(0x7000);
    let p2 = Page::containing_address(0x8000);
    let f1 = map_virt(&mut l4, p1, flags, &mut fa).unwrap();
    let f2 = map_virt(&mut l4, p2, flags, &mut fa).unwrap();
    assert_ne!(f1, f2);
    unmap_virt(&mut l4, p1).unwrap();
    assert_eq!(virt2phys(&l4, 0x7000), None);
    assert_eq!(virt2phys(&l4, 0x8000), Some(f2));
}

#[test]
fn map_reports_frame_exhaustion() {
    let mut l4 = PageTableNode::zeroed();
    // a fresh tree needs four frames for the first mapping; three are not
    // enough
    let mut fa = simple_map(0x100000, 3);
    let flags = PageTableFlags::new(FLAG_PRESENT);
    let page = Page::containing_address(0x4000);
    let r = map_virt(&mut l4, page, flags, &mut fa);
    assert_eq!(r, Err(MapError::FrameExhausted));
    assert_eq!(virt2phys(&l4, 0x4000), None);
}

#[test]
fn mappings_sharing_nodes_reuse_them() {
    let mut l4 = PageTableNode::zeroed();
    let mut fa = simple_map(0x100000, 16);
    let flags = PageTableFlags::new(FLAG_PRESENT);
    // two neighbouring pages share all three intermediate nodes
    let p1 = Page::containing_address(0x10000);
    let p2 = Page::containing_address(0x11000);
    map_virt(&mut l4, p1, flags, &mut fa).unwrap();
    map_virt(&mut l4, p2, flags, &mut fa).unwrap();
    // 4 frames for the first mapping, 1 for the second
    assert_eq!(fa.allocate_frame(), Some(0x100000 + 5 * PAGE_SIZE));
}

#[test]
fn heap_init_maps_the_whole_arena() {
    let mut l4 = PageTableNode::zeroed();
    // the heap needs one frame per page plus intermediate nodes
    let frames = HEAP_SIZE / PAGE_SIZE + 8;
    let mut fa = simple_map(0x40_0000, frames);
    let heap = init(&mut l4, &mut fa).unwrap();
    assert_eq!(heap.live_allocations(), 0);
    assert_eq!(heap.bump_cursor(), HEAP_START);
    assert!(virt2phys(&l4, HEAP_START).is_some());
    assert!(virt2phys(&l4, HEAP_START + HEAP_SIZE - 1).is_some());
    assert_eq!(virt2phys(&l4, HEAP_START + HEAP_SIZE), None);
}

#[test]
fn user_code_maps_and_unmaps() {
    let mut l4 = PageTableNode::zeroed();
    let mut fa = simple_map(0x50_0000, 16);
    alloc_user_code(&mut l4, &mut fa, 4096).unwrap();
    assert!(virt2phys(&l4, cruzos::allocator::USER_CODE_START).is_some());
    free_user_code(&mut l4).unwrap();
    assert_eq!(virt2phys(&l4, cruzos::allocator::USER_CODE_START), None);
}

#[test]
fn page_indices_follow_the_address_bits() {
    let page = Page::containing_address(0xdead_beef);
    assert_eq!(page.start_address(), 0xdead_b000);
    assert_eq!(page.p4_index(), 0);
    assert_eq!(page.p3_index(), 3);
    assert_eq!(page.p2_index(), 0xf5);
    assert_eq!(page.p1_index(), 0xdb);
}

#[test]
fn flags_widen_and_contain() {
    let p = PageTableFlags::new(FLAG_PRESENT);
    let w = PageTableFlags::new(FLAG_WRITABLE);
    let both = p.union(w);
    assert_eq!(both.bits, 3);
    assert!(both.contains(p));
    assert!(both.contains(w));
    assert!(!p.contains(w));
    assert!(PageTableFlags::empty().is_empty());
    assert!(!both.is_empty());
}

#[test]
fn heap_init_leaves_other_mappings_alone() {
    let mut l4 = PageTableNode::zeroed();
    let frames = HEAP_SIZE / PAGE_SIZE + 16;
    let mut fa = simple_map(0xb8000, frames);
    let flags = PageTableFlags::new(FLAG_PRESENT | FLAG_WRITABLE);
    let screen = Page::containing_address(0xb8000);
    let screen_frame = map_virt(&mut l4, screen, flags, &mut fa).unwrap();
    assert_eq!(screen_frame, 0xb8000);
    init(&mut l4, &mut fa).unwrap();
    // the earlier identity mapping survives the heap mapping untouched
    assert_eq!(virt2phys(&l4, 0xb8000), Some(0xb8000));
    assert!(virt2phys(&l4, HEAP_START).is_some());
}

#[test]
fn heap_pages_are_backed_by_distinct_frames() {
    let mut l4 = PageTableNode::zeroed();
    let frames = HEAP_SIZE / PAGE_SIZE + 8;
    let mut fa = simple_map(0x40_0000, frames);
    init(&mut l4, &mut fa).unwrap();
    let mut seen: Vec<u64> = Vec::new();
    let mut addr = HEAP_START;
    while addr < HEAP_START + HEAP_SIZE {
        let phys = virt2phys(&l4, addr).unwrap();
        assert_eq!(phys % PAGE_SIZE, 0);
        assert!(!seen.contains(&phys));
        seen.push(phys);
        addr += PAGE_SIZE;
    }
}
