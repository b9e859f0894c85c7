//! Heap allocator behaviour on a synthetic arena.

use cruzos::allocator::{align_up, HEAP_END, HEAP_SIZE, HEAP_START};
use cruzos::bump_allocator::BumpAllocator;
use cruzos::linked_list_allocator::{AllocError, LinkedListAllocator, REUSABLE_SPACE_SIZE};

const ARENA_START: u64 = 0x1000;
const ARENA_END: u64 = 0x2000;

#[test]
fn align_up_identity_on_aligned() {
    assert_eq!(align_up(0, 1), 0);
    assert_eq!(align_up(4096, 4096), 4096);
    assert_eq!(align_up(4096, 8), 4096);
    assert_eq!(align_up(7, 1), 7);
}

#[test]
fn align_up_rounds_up() {
    assert_eq!(align_up(1, 4096), 4096);
    assert_eq!(align_up(4097, 4096), 8192);
    assert_eq!(align_up(13, 8), 16);
    assert_eq!(align_up(15, 16), 16);
}

#[test]
fn heap_constants_are_consistent() {
    assert_eq!(HEAP_END, HEAP_START + HEAP_SIZE);
    assert_eq!(HEAP_SIZE, 100 * 1024);
}

#[test]
fn first_allocation_is_at_arena_start() {
    let mut a = LinkedListAllocator::new(ARENA_START, ARENA_END);
    let addr = a.allocate(64, 1).unwrap();
    assert_eq!(addr, ARENA_START);
    assert_eq!(a.live_allocations(), 1);
    assert_eq!(a.bump_cursor(), ARENA_START + 64);
}

#[test]
fn allocations_respect_alignment() {
    let mut a = LinkedListAllocator::new(ARENA_START + 1, ARENA_END);
    let b1 = a.allocate(10, 8).unwrap();
    assert_eq!(b1 % 8, 0);
    let b2 = a.allocate(3, 16).unwrap();
    assert_eq!(b2 % 16, 0);
    let b3 = a.allocate(100, 256).unwrap();
    assert_eq!(b3 % 256, 0);
}

#[test]
fn live_allocations_do_not_overlap() {
    let mut a = LinkedListAllocator::new(ARENA_START, ARENA_END);
    let mut blocks: Vec<(u64, u64)> = Vec::new();
    for &(size, align) in &[(24u64, 8u64), (100, 16), (1, 1), (64, 64), (17, 2)] {
        let addr = a.allocate(size, align).unwrap();
        blocks.push((addr, size));
    }
    for i in 0..blocks.len() {
        for j in 0..blocks.len() {
            if i != j {
                let (ai, si) = blocks[i];
                let (aj, sj) = blocks[j];
                assert!(ai + si <= aj || aj + sj <= ai);
            }
        }
    }
}

#[test]
fn full_reset_reuses_first_address() {
    let mut a = LinkedListAllocator::new(ARENA_START, ARENA_END);
    let first = a.allocate(40, 8).unwrap();
    let second = a.allocate(24, 8).unwrap();
    let third = a.allocate(16, 16).unwrap();
    a.deallocate(second, 24);
    a.deallocate(first, 40);
    a.deallocate(third, 16);
    assert_eq!(a.live_allocations(), 0);
    assert_eq!(a.bump_cursor(), ARENA_START);
    assert_eq!(a.free_list_len(), 0);
    let again = a.allocate(40, 8).unwrap();
    assert_eq!(again, first);
}

#[test]
fn freed_block_is_reused_before_the_tail() {
    let mut a = LinkedListAllocator::new(ARENA_START, ARENA_END);
    let first = a.allocate(32, 8).unwrap();
    let _keep = a.allocate(8, 8).unwrap();
    let cursor_before = a.bump_cursor();
    a.deallocate(first, 32);
    assert_eq!(a.free_list_len(), 1);
    let reused = a.allocate(32, 8).unwrap();
    assert_eq!(reused, first);
    assert_eq!(a.bump_cursor(), cursor_before);
    assert_eq!(a.free_list_len(), 0);
}

#[test]
fn freed_block_with_leftover_splits() {
    let mut a = LinkedListAllocator::new(ARENA_START, ARENA_END);
    let first = a.allocate(64, 8).unwrap();
    let _keep = a.allocate(8, 8).unwrap();
    a.deallocate(first, 64);
    // a 32-byte request leaves 32 bytes, enough for free-list metadata
    let reused = a.allocate(32, 8).unwrap();
    assert_eq!(reused, first);
    assert_eq!(a.free_list_len(), 1);
    // the leftover half serves the next fitting request
    let leftover = a.allocate(32, 8).unwrap();
    assert_eq!(leftover, first + 32);
    assert_eq!(a.free_list_len(), 0);
}

#[test]
fn small_freed_blocks_are_leaked_until_reset() {
    let mut a = LinkedListAllocator::new(ARENA_START, ARENA_END);
    let small = a.allocate(8, 8).unwrap();
    let _keep = a.allocate(8, 8).unwrap();
    assert!(8 < REUSABLE_SPACE_SIZE);
    a.deallocate(small, 8);
    // too small to carry free-list metadata: not on the free list
    assert_eq!(a.free_list_len(), 0);
}

#[test]
fn exhaustion_is_reported_not_papered_over() {
    let mut a = LinkedListAllocator::new(ARENA_START, ARENA_START + 64);
    let r = a.allocate(128, 1);
    assert_eq!(r, Err(AllocError::OutOfMemory));
    // the failed request changed nothing
    assert_eq!(a.live_allocations(), 0);
    assert_eq!(a.bump_cursor(), ARENA_START);
    let ok = a.allocate(64, 1).unwrap();
    assert_eq!(ok, ARENA_START);
    let r2 = a.allocate(1, 1);
    assert_eq!(r2, Err(AllocError::OutOfMemory));
}

#[test]
fn exhaustion_counts_alignment_padding() {
    let mut a = LinkedListAllocator::new(ARENA_START + 8, ARENA_START + 4096);
    // fits by size, but not once the start is rounded up to the alignment
    let r = a.allocate(4000, 4096);
    assert_eq!(r, Err(AllocError::OutOfMemory));
}

#[test]
fn bump_allocator_allocates_and_resets() {
    let mut b = BumpAllocator::new(ARENA_START, ARENA_END);
    let x = b.allocate(100, 1).unwrap();
    assert_eq!(x, ARENA_START);
    let y = b.allocate(50, 8).unwrap();
    assert_eq!(y % 8, 0);
    assert!(y >= ARENA_START + 100);
    assert_eq!(b.live_allocations(), 2);
    b.deallocate();
    // one allocation still live: the cursor does not move back
    assert_ne!(b.bump_cursor(), ARENA_START);
    b.deallocate();
    assert_eq!(b.live_allocations(), 0);
    assert_eq!(b.bump_cursor(), ARENA_START);
}

#[test]
fn bump_allocator_reports_exhaustion() {
    let mut b = BumpAllocator::new(ARENA_START, ARENA_START + 16);
    assert_eq!(b.allocate(32, 1), Err(AllocError::OutOfMemory));
    assert_eq!(b.allocate(16, 1), Ok(ARENA_START));
    assert_eq!(b.allocate(1, 1), Err(AllocError::OutOfMemory));
}
