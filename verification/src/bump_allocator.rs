//! Bump heap allocator.
//!
//! The simplest allocator over a fixed arena: a monotone cursor hands out
//! blocks from the untouched tail and never reuses a freed block
//! individually.  Only the live-allocation count is tracked; when it drops
//! back to zero the cursor returns to the arena start and the whole arena is
//! reclaimed at once.

use vstd::prelude::*;

verus! {

use crate::allocator::lemma_align_up;
use crate::allocator::spec_align_up;
use crate::linked_list_allocator::AllocError;

/// Bump allocator over the fixed arena `[heap_start, heap_end)`.
pub struct BumpAllocator {
    /// Number of live allocations.
    alloc_refs: u64,
    /// Bump cursor: first never-yet-allocated address.
    alloc_start: u64,
    /// First address of the arena.
    heap_start: u64,
    /// First address past the arena.
    heap_end: u64,
}

impl BumpAllocator {
    /// Number of live allocations.
    pub closed spec fn count(&self) -> u64 {
        self.alloc_refs
    }

    /// Current bump cursor.
    pub closed spec fn bump(&self) -> u64 {
        self.alloc_start
    }

    /// First address of the arena.
    pub closed spec fn arena_start(&self) -> u64 {
        self.heap_start
    }

    /// First address past the arena.
    pub closed spec fn arena_end(&self) -> u64 {
        self.heap_end
    }

    /// The cursor stays inside the arena, and a count of zero means the
    /// arena is fully reset.
    pub open spec fn wf(&self) -> bool {
        &&& self.arena_start() <= self.bump() <= self.arena_end()
        &&& self.count() == 0 ==> self.bump() == self.arena_start()
    }

    /// A fresh bump allocator owning the arena `[heap_start, heap_end)`.
    pub fn new(heap_start: u64, heap_end: u64) -> (r: BumpAllocator)
        requires
            heap_start <= heap_end,
        ensures
            r.wf(),
            r.arena_start() == heap_start,
            r.arena_end() == heap_end,
            r.bump() == heap_start,
            r.count() == 0,
    {
        BumpAllocator {
            alloc_refs: 0,
            alloc_start: heap_start,
            heap_start: heap_start,
            heap_end: heap_end,
        }
    }

    /// Serves a request of `size` bytes at alignment `align` from the
    /// untouched tail: the cursor is rounded up to the alignment and
    /// advanced past the new block.  `OutOfMemory` is returned, and the
    /// allocator left unchanged, exactly when the rounded-up cursor plus
    /// `size` would pass the arena end.
    pub fn allocate(&mut self, size: u64, align: u64) -> (r: Result<u64, AllocError>)
        requires
            old(self).wf(),
            size >= 1,
            align >= 1,
            old(self).count() < u64::MAX,
        ensures
            final(self).wf(),
            final(self).arena_start() == old(self).arena_start(),
            final(self).arena_end() == old(self).arena_end(),
            match r {
                Ok(addr) => {
                    &&& addr == spec_align_up(old(self).bump() as int, align as int)
                    &&& addr % align == 0
                    &&& old(self).bump() <= addr
                    &&& addr + size <= old(self).arena_end()
                    &&& final(self).bump() == addr + size
                    &&& final(self).count() == old(self).count() + 1
                },
                Err(e) => {
                    &&& e == AllocError::OutOfMemory
                    &&& spec_align_up(old(self).bump() as int, align as int) + size > old(
                        self,
                    ).arena_end()
                    &&& *final(self) == *old(self)
                },
            },
    {
        proof {
            lemma_align_up(self.alloc_start as int, align as int);
        }
        let remainder = self.alloc_start % align;
        let difference = if remainder == 0 {
            0
        } else {
            align - remainder
        };
        if difference > u64::MAX - self.alloc_start {
            // the rounded-up cursor cannot be represented, so it is past the
            // arena end
            return Err(AllocError::OutOfMemory);
        }
        let alloc_addr = self.alloc_start + difference;
        if alloc_addr > self.heap_end || size > self.heap_end - alloc_addr {
            return Err(AllocError::OutOfMemory);
        }
        self.alloc_refs = self.alloc_refs + 1;
        self.alloc_start = alloc_addr + size;
        Ok(alloc_addr)
    }

    /// Records that one live allocation was returned.  Individual blocks are
    /// never reused; when the count reaches zero the cursor returns to the
    /// arena start and the whole arena is reclaimed at once.
    pub fn deallocate(&mut self)
        requires
            old(self).wf(),
            old(self).count() >= 1,
        ensures
            final(self).wf(),
            final(self).arena_start() == old(self).arena_start(),
            final(self).arena_end() == old(self).arena_end(),
            final(self).count() == old(self).count() - 1,
            old(self).count() == 1 ==> final(self).bump() == final(self).arena_start(),
            old(self).count() > 1 ==> final(self).bump() == old(self).bump(),
    {
        self.alloc_refs = self.alloc_refs - 1;
        if self.alloc_refs == 0 {
            self.alloc_start = self.heap_start;
        }
    }

    /// Number of live allocations.
    pub fn live_allocations(&self) -> (r: u64)
        ensures
            r == self.count(),
    {
        self.alloc_refs
    }

    /// Current bump cursor.
    pub fn bump_cursor(&self) -> (r: u64)
        ensures
            r == self.bump(),
    {
        self.alloc_start
    }
}

} // verus!
