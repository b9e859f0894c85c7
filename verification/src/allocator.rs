//! Heap arena geometry and address alignment.
//!
//! The heap is a fixed, contiguous virtual address range owned exclusively by
//! the heap allocator; a second, smaller range is reserved for user code.
//! `align_up` rounds an address up to a requested alignment and is shared by
//! both allocators.

use vstd::prelude::*;

verus! {

use vstd::arithmetic::div_mod::lemma_fundamental_div_mod;
use vstd::arithmetic::div_mod::lemma_mod_multiples_basic;
use vstd::arithmetic::div_mod::lemma_mod_division_less_than_divisor;
use crate::linked_list_allocator::LinkedListAllocator;
use crate::linked_list_allocator::initial_model;
use crate::memory::FLAG_PRESENT;
use crate::memory::FLAG_USER_ACCESSIBLE;
use crate::memory::FLAG_WRITABLE;
use crate::memory::FrameAllocator;
use crate::memory::MapError;
use crate::memory::PageTableFlags;
use crate::memory::PageTableNode;
use crate::memory::map_range;
use crate::memory::node_wf;
use crate::memory::PAGE_SIZE;
use crate::memory::entry_at;
use crate::memory::leaf_frame;
use crate::memory::spec_p1_index;
use crate::memory::spec_p2_index;
use crate::memory::spec_p3_index;
use crate::memory::spec_p4_index;
use crate::memory::spec_translate;
use crate::memory::unmap_range;

/// First address of the heap arena.
pub const HEAP_START: u64 = 0x4444_4444_0000;

/// Size of the heap arena in bytes.
pub const HEAP_SIZE: u64 = 100 * 1024;

/// First address past the heap arena.
pub const HEAP_END: u64 = HEAP_START + HEAP_SIZE;

/// First address of the user-code range.
pub const USER_CODE_START: u64 = 0x5555_5555_0000;

/// Size of the user-code range in bytes.
pub const USER_CODE_MAX_SIZE: u64 = 4 * 1024;

/// First address past the user-code range.
pub const USER_CODE_MAX_END: u64 = USER_CODE_START + USER_CODE_MAX_SIZE;

/// Placeholder allocator that refuses every request; kept as the null object
/// of the allocator interface.
pub struct HeapAllocator {}

/// The smallest multiple of `align` that is at least `addr`.
pub open spec fn spec_align_up(addr: int, align: int) -> int
    recommends
        align > 0,
{
    if addr % align == 0 {
        addr
    } else {
        addr + (align - addr % align)
    }
}

/// The result of rounding `addr` up to a positive alignment is a multiple of
/// the alignment, is at least `addr`, and is less than `addr + align`.
pub proof fn lemma_align_up(addr: int, align: int)
    requires
        addr >= 0,
        align > 0,
    ensures
        spec_align_up(addr, align) % align == 0,
        addr <= spec_align_up(addr, align) < addr + align,
{
    lemma_fundamental_div_mod(addr, align);
    lemma_mod_division_less_than_divisor(addr, align);
    if addr % align != 0 {
        let q = addr / align;
        assert(addr + (align - addr % align) == (q + 1) * align) by {
            assert(addr == align * q + addr % align);
            assert((q + 1) * align == align * q + align) by (nonlinear_arith);
        }
        lemma_mod_multiples_basic(q + 1, align);
    }
}

/// Rounds `start_addr` up so that it is aligned to `align`.
///
/// Addresses produced by the allocators are aligned with this function; an
/// already aligned address is returned unchanged.
pub fn align_up(start_addr: u64, align: u64) -> (r: u64)
    requires
        align > 0,
        spec_align_up(start_addr as int, align as int) <= u64::MAX,
    ensures
        r == spec_align_up(start_addr as int, align as int),
        start_addr <= r < start_addr + align,
        r % align == 0,
{
    proof {
        lemma_align_up(start_addr as int, align as int);
    }
    let remainder = start_addr % align;
    let aligned_addr = if remainder == 0 {
        start_addr
    } else {
        let difference = align - remainder;
        start_addr + difference
    };
    aligned_addr
}

/// Maps the whole heap arena and hands back the allocator that owns it.
///
/// Success is owed: when no heap page is mapped yet and the frame source
/// holds four frames per heap page, the arena gets mapped.  Every page of
/// `[HEAP_START, HEAP_END)` is then mapped present and writable — to
/// pairwise distinct frames when the memory map is well formed — with
/// frames drawn from the frame source; afterwards the heap allocator
/// never touches the page tables again; pages outside the arena keep
/// exactly the mappings they had.  The returned allocator is fresh: no
/// live allocations, an empty free list, and the bump cursor at the arena
/// start.  A mapping failure is passed on and is fatal for the caller.
pub fn init(l4: &mut PageTableNode, frame_allocator: &mut FrameAllocator) -> (r: Result<
    LinkedListAllocator,
    MapError,
>)
    requires
        node_wf(*old(l4), 4),
        old(frame_allocator).cursor() + 4 <= u64::MAX,
        old(frame_allocator).frames().len() + 4 <= u64::MAX,
    ensures
        node_wf(*final(l4), 4),
        final(frame_allocator).frames() == old(frame_allocator).frames(),
        final(frame_allocator).map_wf() == old(frame_allocator).map_wf(),
        ({
            let first_page = HEAP_START & 0xffff_ffff_f000u64;
            let last_page = ((HEAP_START + (HEAP_SIZE - 1)) as u64) & 0xffff_ffff_f000u64;
            let page_count = ((last_page - first_page) / (PAGE_SIZE as int)) + 1;
            (forall|q: u64|
                first_page <= q <= last_page && q % PAGE_SIZE == 0 ==> (#[trigger] entry_at(
                    *old(l4),
                    spec_p4_index(q) as int,
                    spec_p3_index(q) as int,
                    spec_p2_index(q) as int,
                    spec_p1_index(q) as int,
                )) is None) && old(frame_allocator).cursor() + 4 * page_count <= old(
                frame_allocator,
            ).frames().len() ==> r is Ok
        }),
        match r {
            Ok(a) => {
                &&& a.wf()
                &&& a@ == initial_model(HEAP_START as int, HEAP_END as int)
                &&& forall|addr: u64|
                    HEAP_START <= addr < HEAP_END ==> (#[trigger] spec_translate(
                        *final(l4),
                        addr,
                    )) is Some
                &&& forall|q: u64|
                    (HEAP_START & 0xffff_ffff_f000u64) <= q <= (((HEAP_START + (HEAP_SIZE
                        - 1)) as u64) & 0xffff_ffff_f000u64) && q % PAGE_SIZE == 0 ==> ((
                    #[trigger] entry_at(
                        *final(l4),
                        spec_p4_index(q) as int,
                        spec_p3_index(q) as int,
                        spec_p2_index(q) as int,
                        spec_p1_index(q) as int,
                    )) matches Some(p) && p.1.bits == FLAG_PRESENT | FLAG_WRITABLE)
                &&& (old(frame_allocator).map_wf() ==> forall|q1: u64, q2: u64|
                    (HEAP_START & 0xffff_ffff_f000u64) <= q1 <= (((HEAP_START + (HEAP_SIZE
                        - 1)) as u64) & 0xffff_ffff_f000u64) && q1 % PAGE_SIZE == 0 && (HEAP_START
                        & 0xffff_ffff_f000u64) <= q2 <= (((HEAP_START + (HEAP_SIZE - 1)) as u64)
                        & 0xffff_ffff_f000u64) && q2 % PAGE_SIZE == 0 && q1 != q2
                        ==> #[trigger] leaf_frame(
                        *final(l4),
                        spec_p4_index(q1) as int,
                        spec_p3_index(q1) as int,
                        spec_p2_index(q1) as int,
                        spec_p1_index(q1) as int,
                    ) != #[trigger] leaf_frame(
                        *final(l4),
                        spec_p4_index(q2) as int,
                        spec_p3_index(q2) as int,
                        spec_p2_index(q2) as int,
                        spec_p1_index(q2) as int,
                    ))
                &&& forall|addr: u64|
                    addr < 0x1_0000_0000_0000u64 && ((addr & 0xffff_ffff_f000u64) < (HEAP_START
                        & 0xffff_ffff_f000u64) || (addr & 0xffff_ffff_f000u64) > (((HEAP_START
                        + HEAP_SIZE - 1) as u64) & 0xffff_ffff_f000u64)) ==> (
                    #[trigger] spec_translate(*final(l4), addr)) == spec_translate(*old(l4), addr)
            },
            Err(e) => {
                &&& (e == MapError::AlreadyMapped || e == MapError::FrameExhausted)
                &&& (e == MapError::AlreadyMapped ==> exists|qf: u64|
                    #![trigger spec_p4_index(qf)]
                    {
                        &&& (HEAP_START & 0xffff_ffff_f000u64) <= qf <= (((HEAP_START + (HEAP_SIZE
                            - 1)) as u64) & 0xffff_ffff_f000u64)
                        &&& qf % PAGE_SIZE == 0
                        &&& entry_at(
                            *old(l4),
                            spec_p4_index(qf) as int,
                            spec_p3_index(qf) as int,
                            spec_p2_index(qf) as int,
                            spec_p1_index(qf) as int,
                        ) is Some
                    })
            },
        },
{
    let flags = PageTableFlags::new(FLAG_PRESENT | FLAG_WRITABLE);
    match map_range(l4, frame_allocator, HEAP_START, HEAP_SIZE, flags) {
        Ok(_) => Ok(LinkedListAllocator::new(HEAP_START, HEAP_END)),
        Err(e) => Err(e),
    }
}

/// Maps `size` bytes of the user-code range present, writable and
/// user-accessible, with frames drawn from the frame source.  Success is
/// owed: when no page of the range is mapped yet and the frame source
/// holds four frames per page, the call returns `Ok`.
pub fn alloc_user_code(
    l4: &mut PageTableNode,
    frame_allocator: &mut FrameAllocator,
    size: u64,
) -> (r: Result<(), MapError>)
    requires
        node_wf(*old(l4), 4),
        1 <= size <= USER_CODE_MAX_SIZE,
        old(frame_allocator).cursor() + 4 <= u64::MAX,
        old(frame_allocator).frames().len() + 4 <= u64::MAX,
    ensures
        node_wf(*final(l4), 4),
        final(frame_allocator).frames() == old(frame_allocator).frames(),
        final(frame_allocator).map_wf() == old(frame_allocator).map_wf(),
        ({
            let first_page = USER_CODE_START & 0xffff_ffff_f000u64;
            let last_page = ((USER_CODE_START + (size - 1)) as u64) & 0xffff_ffff_f000u64;
            let page_count = ((last_page - first_page) / (PAGE_SIZE as int)) + 1;
            (forall|q: u64|
                first_page <= q <= last_page && q % PAGE_SIZE == 0 ==> (#[trigger] entry_at(
                    *old(l4),
                    spec_p4_index(q) as int,
                    spec_p3_index(q) as int,
                    spec_p2_index(q) as int,
                    spec_p1_index(q) as int,
                )) is None) && old(frame_allocator).cursor() + 4 * page_count <= old(
                frame_allocator,
            ).frames().len() ==> r is Ok
        }),
        match r {
            Ok(u) => forall|addr: u64|
                USER_CODE_START <= addr < USER_CODE_START + size ==> (#[trigger] spec_translate(
                    *final(l4),
                    addr,
                )) is Some,
            Err(e) => {
                &&& (e == MapError::AlreadyMapped || e == MapError::FrameExhausted)
                &&& (e == MapError::AlreadyMapped ==> exists|qf: u64|
                    #![trigger spec_p4_index(qf)]
                    {
                        &&& (USER_CODE_START & 0xffff_ffff_f000u64) <= qf <= (((USER_CODE_START + (
                        size - 1)) as u64) & 0xffff_ffff_f000u64)
                        &&& qf % PAGE_SIZE == 0
                        &&& entry_at(
                            *old(l4),
                            spec_p4_index(qf) as int,
                            spec_p3_index(qf) as int,
                            spec_p2_index(qf) as int,
                            spec_p1_index(qf) as int,
                        ) is Some
                    })
            },
        },
{
    let flags = PageTableFlags::new(FLAG_PRESENT | FLAG_WRITABLE | FLAG_USER_ACCESSIBLE);
    map_range(l4, frame_allocator, USER_CODE_START, size, flags)
}

/// Unmaps the whole user-code range.  Success is owed: when every page of
/// the range is mapped, the call returns `Ok`.
pub fn free_user_code(l4: &mut PageTableNode) -> (r: Result<(), MapError>)
    requires
        node_wf(*old(l4), 4),
    ensures
        node_wf(*final(l4), 4),
        ({
            let first_page = USER_CODE_START & 0xffff_ffff_f000u64;
            let last_page = ((USER_CODE_START + (USER_CODE_MAX_SIZE - 1)) as u64)
                & 0xffff_ffff_f000u64;
            (forall|q: u64|
                first_page <= q <= last_page && q % PAGE_SIZE == 0 ==> (#[trigger] entry_at(
                    *old(l4),
                    spec_p4_index(q) as int,
                    spec_p3_index(q) as int,
                    spec_p2_index(q) as int,
                    spec_p1_index(q) as int,
                )) is Some) ==> r is Ok
        }),
        match r {
            Ok(u) => forall|addr: u64|
                USER_CODE_START <= addr < USER_CODE_MAX_END ==> (#[trigger] spec_translate(
                    *final(l4),
                    addr,
                )) is None,
            Err(e) => {
                &&& e == MapError::NotMapped
                &&& exists|qf: u64|
                    #![trigger spec_p4_index(qf)]
                    {
                        &&& (USER_CODE_START & 0xffff_ffff_f000u64) <= qf <= (((USER_CODE_START + (
                        USER_CODE_MAX_SIZE - 1)) as u64) & 0xffff_ffff_f000u64)
                        &&& qf % PAGE_SIZE == 0
                        &&& entry_at(
                            *old(l4),
                            spec_p4_index(qf) as int,
                            spec_p3_index(qf) as int,
                            spec_p2_index(qf) as int,
                            spec_p1_index(qf) as int,
                        ) is None
                    }
            },
        },
{
    unmap_range(l4, USER_CODE_START, USER_CODE_MAX_SIZE)
}

} // verus!
