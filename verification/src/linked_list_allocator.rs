//! Free-list heap allocator.
//!
//! The allocator owns a fixed arena `[heap_start, heap_end)` and serves
//! byte-granularity, alignment-constrained requests.  Freed blocks that are
//! large enough to carry free-list metadata are recorded on an unordered,
//! singly linked free list and are preferred over the untouched tail of the
//! arena; the tail is consumed through a monotone bump cursor.  When the last
//! live allocation is returned, the whole arena is reset: the cursor goes back
//! to the arena start and the free list is cleared, which reclaims every
//! leaked sliver at once.
//!
//! In the kernel the free list lives inside the freed memory itself; here the
//! list is held as an explicit vector of `(address, size)` descriptors, and a
//! ghost sequence of live blocks records what is currently allocated, so that
//! the central safety property — no two live allocations overlap — is part of
//! the allocator's invariant.

use vstd::prelude::*;

verus! {

use crate::allocator::align_up;
use crate::allocator::lemma_align_up;
use crate::allocator::spec_align_up;

/// Bytes of metadata that a free-list node occupies at the start of a freed
/// block (a link word and a size word).
pub const REUSABLE_SPACE_SIZE: u64 = 16;

/// Alignment that an address must satisfy for free-list metadata to be
/// written there.
pub const REUSABLE_SPACE_ALIGN: u64 = 8;

/// Failure of an allocation request.
#[derive(Debug, Clone, Copy, PartialEq, Eq, Structural)]
pub enum AllocError {
    /// Neither the free list nor the untouched arena tail can hold the
    /// requested block.
    OutOfMemory,
}

/// A half-open block of addresses `[addr, addr + size)`, used in
/// specifications.
pub struct Block {
    pub addr: int,
    pub size: int,
}

/// Two blocks occupy disjoint address ranges.
pub open spec fn block_disjoint(a: Block, b: Block) -> bool {
    a.addr + a.size <= b.addr || b.addr + b.size <= a.addr
}

/// Mathematical state of the allocator: arena bounds, bump cursor,
/// live-allocation count, free list and live blocks.
#[verifier::ext_equal]
pub struct AllocatorModel {
    pub heap_start: int,
    pub heap_end: int,
    pub bump: int,
    pub count: nat,
    pub free: Seq<Block>,
    pub live: Seq<Block>,
}

/// State of a freshly constructed allocator over `[heap_start, heap_end)`.
pub open spec fn initial_model(heap_start: int, heap_end: int) -> AllocatorModel {
    AllocatorModel {
        heap_start: heap_start,
        heap_end: heap_end,
        bump: heap_start,
        count: 0,
        free: Seq::empty(),
        live: Seq::empty(),
    }
}

/// A free block lies inside the used part of the arena, can carry free-list
/// metadata, and starts at a metadata-aligned address.
pub open spec fn free_block_ok(m: AllocatorModel, b: Block) -> bool {
    &&& m.heap_start <= b.addr
    &&& b.addr + b.size <= m.bump
    &&& b.size >= REUSABLE_SPACE_SIZE
    &&& b.addr % (REUSABLE_SPACE_ALIGN as int) == 0
}

/// A live block is nonempty and lies inside the used part of the arena.
pub open spec fn live_block_ok(m: AllocatorModel, b: Block) -> bool {
    &&& m.heap_start <= b.addr
    &&& b.addr + b.size <= m.bump
    &&& b.size >= 1
}

/// Invariant of the allocator state.
///
/// The bump cursor stays inside the arena; the live-allocation count equals
/// the number of live blocks; a count of zero means the arena is fully reset;
/// free and live blocks are well formed and pairwise disjoint.
pub open spec fn inv(m: AllocatorModel) -> bool {
    &&& 0 <= m.heap_start <= m.bump <= m.heap_end <= u64::MAX as int
    &&& m.count == m.live.len()
    &&& m.count == 0 ==> m.bump == m.heap_start && m.free.len() == 0
    &&& forall|i: int| 0 <= i < m.free.len() ==> free_block_ok(m, #[trigger] m.free[i])
    &&& forall|i: int| 0 <= i < m.live.len() ==> live_block_ok(m, #[trigger] m.live[i])
    &&& forall|i: int, j: int|
        0 <= i < j < m.free.len() ==> block_disjoint(#[trigger] m.free[i], #[trigger] m.free[j])
    &&& forall|i: int, j: int|
        0 <= i < j < m.live.len() ==> block_disjoint(#[trigger] m.live[i], #[trigger] m.live[j])
    &&& forall|i: int, j: int|
        0 <= i < m.free.len() && 0 <= j < m.live.len() ==> block_disjoint(
            #[trigger] m.free[i],
            #[trigger] m.live[j],
        )
}

/// A free block can serve a request of `size` bytes at alignment `align`:
/// after rounding the block's address up to the alignment the request fits in
/// the block, and the leftover tail is either empty or can itself host
/// free-list metadata at a metadata-aligned address — the "no unusable
/// sliver" rule.
pub open spec fn spec_is_suitable(b: Block, size: int, align: int) -> bool {
    let aligned_start = spec_align_up(b.addr, align);
    let leftover_start = aligned_start + size;
    let end = b.addr + b.size;
    &&& leftover_start <= end
    &&& (leftover_start == end || spec_align_up(leftover_start, REUSABLE_SPACE_ALIGN as int)
        + REUSABLE_SPACE_SIZE <= end)
}

/// Index of the first suitable block of the free list, or -1 when no block
/// is suitable.
pub open spec fn spec_find_suitable(free: Seq<Block>, size: int, align: int) -> int
    decreases free.len(),
{
    if free.len() == 0 {
        -1
    } else if spec_is_suitable(free[0], size, align) {
        0
    } else {
        let rest = spec_find_suitable(free.drop_first(), size, align);
        if rest == -1 {
            -1
        } else {
            rest + 1
        }
    }
}

/// Outcome of an allocation request: the state after the request, and the
/// address served, or `None` on resource exhaustion.
#[verifier::ext_equal]
pub struct AllocOutcome {
    pub state: AllocatorModel,
    pub result: Option<int>,
}

/// The free block left over after carving `[aligned_start, aligned_start +
/// size)` out of a block ending at `end`.
pub open spec fn leftover_block(aligned_start: int, size: int, end: int) -> Block {
    let node_addr = spec_align_up(aligned_start + size, REUSABLE_SPACE_ALIGN as int);
    Block { addr: node_addr, size: end - node_addr }
}

/// Allocation, as a function of the allocator state.
///
/// The first suitable free block is unlinked; a nonempty leftover tail is
/// pushed on the front of the free list as a new free block.  With no
/// suitable free block the request is served from the untouched tail at the
/// rounded-up bump cursor, or refused when the arena end would be passed.
pub open spec fn spec_allocate(m: AllocatorModel, size: int, align: int) -> AllocOutcome {
    let i = spec_find_suitable(m.free, size, align);
    if i >= 0 {
        let b = m.free[i];
        let aligned_start = spec_align_up(b.addr, align);
        let leftover_start = aligned_start + size;
        let end = b.addr + b.size;
        let removed = m.free.remove(i);
        let free1 = if leftover_start == end {
            removed
        } else {
            seq![leftover_block(aligned_start, size, end)] + removed
        };
        AllocOutcome {
            state: AllocatorModel {
                heap_start: m.heap_start,
                heap_end: m.heap_end,
                bump: m.bump,
                count: (m.count + 1) as nat,
                free: free1,
                live: m.live.push(Block { addr: aligned_start, size: size }),
            },
            result: Some(aligned_start),
        }
    } else {
        let aligned_start = spec_align_up(m.bump, align);
        if aligned_start + size <= m.heap_end {
            AllocOutcome {
                state: AllocatorModel {
                    heap_start: m.heap_start,
                    heap_end: m.heap_end,
                    bump: aligned_start + size,
                    count: (m.count + 1) as nat,
                    free: m.free,
                    live: m.live.push(Block { addr: aligned_start, size: size }),
                },
                result: Some(aligned_start),
            }
        } else {
            AllocOutcome { state: m, result: None }
        }
    }
}

/// Deallocation, as a function of the allocator state.
///
/// The live-allocation count drops by one and the block leaves the live set.
/// A block that can carry free-list metadata becomes the new free-list head;
/// a smaller or misaligned block is leaked.  When the count reaches zero the
/// whole arena is reset.
pub open spec fn spec_deallocate(m: AllocatorModel, addr: int, size: int) -> AllocatorModel {
    let live1 = m.live.remove_value(Block { addr: addr, size: size });
    let free1 = if size >= REUSABLE_SPACE_SIZE && addr % (REUSABLE_SPACE_ALIGN as int) == 0 {
        seq![Block { addr: addr, size: size }] + m.free
    } else {
        m.free
    };
    if m.count == 1 {
        AllocatorModel {
            heap_start: m.heap_start,
            heap_end: m.heap_end,
            bump: m.heap_start,
            count: 0,
            free: Seq::empty(),
            live: live1,
        }
    } else {
        AllocatorModel {
            heap_start: m.heap_start,
            heap_end: m.heap_end,
            bump: m.bump,
            count: (m.count - 1) as nat,
            free: free1,
            live: live1,
        }
    }
}

/// A reusable slot of heap memory: the model of the free-list node that the
/// kernel writes in place at the start of a freed block.
pub struct ReusableSpace {
    /// First address of the reusable block.
    pub addr: u64,
    /// Size of the reusable block in bytes.
    pub size: u64,
}

impl ReusableSpace {
    /// The block of addresses this slot describes.
    pub open spec fn view_block(&self) -> Block {
        Block { addr: self.addr as int, size: self.size as int }
    }

    /// Describes the reusable block `[addr, addr + size)`.
    pub fn new(addr: u64, size: u64) -> (r: ReusableSpace)
        ensures
            r.addr == addr,
            r.size == size,
    {
        ReusableSpace { addr: addr, size: size }
    }

    /// First address of the block.
    pub fn start_addr(&self) -> (r: u64)
        ensures
            r == self.addr,
    {
        self.addr
    }

    /// Last address of the block.
    pub fn end_addr(&self) -> (r: u64)
        requires
            self.size >= 1,
            self.addr + self.size <= u64::MAX,
        ensures
            r == self.addr + self.size - 1,
    {
        self.addr + self.size - 1
    }

    /// Whether this block can serve a request of `size` bytes at alignment
    /// `align` under the no-unusable-sliver rule.
    pub fn is_suitable(&self, size: u64, align: u64) -> (r: bool)
        requires
            size >= 1,
            align >= 1,
            self.addr + self.size <= u64::MAX,
        ensures
            r == spec_is_suitable(self.view_block(), size as int, align as int),
    {
        proof {
            lemma_align_up(self.addr as int, align as int);
        }
        let remainder = self.addr % align;
        let difference = if remainder == 0 {
            0
        } else {
            align - remainder
        };
        if difference > u64::MAX - self.addr {
            // the aligned start itself cannot be represented, so it is past
            // the end of the block
            return false;
        }
        let aligned_start = self.addr + difference;
        let end = self.addr + self.size;
        if aligned_start > end || size > end - aligned_start {
            return false;
        }
        let leftover_start = aligned_start + size;
        if leftover_start == end {
            return true;
        }
        proof {
            lemma_align_up(leftover_start as int, REUSABLE_SPACE_ALIGN as int);
        }
        let leftover_remainder = leftover_start % REUSABLE_SPACE_ALIGN;
        let leftover_difference = if leftover_remainder == 0 {
            0
        } else {
            REUSABLE_SPACE_ALIGN - leftover_remainder
        };
        if leftover_difference > u64::MAX - leftover_start {
            return false;
        }
        let node_addr = leftover_start + leftover_difference;
        node_addr <= end && REUSABLE_SPACE_SIZE <= end - node_addr
    }
}

/// The blocks described by a vector of reusable slots.
pub open spec fn slots_view(slots: Seq<ReusableSpace>) -> Seq<Block> {
    Seq::new(slots.len(), |i: int| slots[i].view_block())
}

/// When every block of the free list before `i` is unsuitable and the block
/// at `i` is suitable, `i` is the first suitable index.
proof fn lemma_find_suitable_here(free: Seq<Block>, size: int, align: int, i: int)
    requires
        0 <= i < free.len(),
        spec_is_suitable(free[i], size, align),
        forall|j: int| 0 <= j < i ==> !spec_is_suitable(#[trigger] free[j], size, align),
    ensures
        spec_find_suitable(free, size, align) == i,
    decreases free.len(),
{
    if i > 0 {
        assert(free.drop_first()[i - 1] == free[i]);
        assert(forall|j: int|
            0 <= j < i - 1 ==> !spec_is_suitable(#[trigger] free.drop_first()[j], size, align))
            by {
            assert(forall|j: int|
                0 <= j < i - 1 ==> #[trigger] free.drop_first()[j] == free[j + 1]);
        }
        lemma_find_suitable_here(free.drop_first(), size, align, i - 1);
    }
}

/// When no block of the free list is suitable, the first suitable index
/// is -1.
proof fn lemma_find_suitable_none(free: Seq<Block>, size: int, align: int)
    requires
        forall|j: int| 0 <= j < free.len() ==> !spec_is_suitable(#[trigger] free[j], size, align),
    ensures
        spec_find_suitable(free, size, align) == -1,
    decreases free.len(),
{
    if free.len() > 0 {
        assert(forall|j: int|
            0 <= j < free.len() - 1 ==> #[trigger] free.drop_first()[j] == free[j + 1]);
        lemma_find_suitable_none(free.drop_first(), size, align);
    }
}

/// Index in the original sequence of the element found at position `k`
/// after the element at position `i` was removed.
pub open spec fn orig_index(i: int, k: int) -> int {
    if k < i {
        k
    } else {
        k + 1
    }
}

/// The first suitable index is either -1 or an index of a suitable block.
proof fn lemma_find_suitable_valid(free: Seq<Block>, size: int, align: int)
    ensures
        ({
            let i = spec_find_suitable(free, size, align);
            i == -1 || (0 <= i < free.len() && spec_is_suitable(free[i], size, align))
        }),
    decreases free.len(),
{
    if free.len() > 0 && !spec_is_suitable(free[0], size, align) {
        lemma_find_suitable_valid(free.drop_first(), size, align);
        let rest = spec_find_suitable(free.drop_first(), size, align);
        if rest >= 0 {
            assert(free.drop_first()[rest] == free[rest + 1]);
        }
    }
}

/// Allocation preserves the allocator invariant, and a served address is
/// aligned as requested and lies inside the arena; a refused request leaves
/// the state unchanged.
proof fn lemma_allocate_preserves_inv(m: AllocatorModel, size: int, align: int)
    requires
        inv(m),
        size >= 1,
        align >= 1,
        m.count < u64::MAX,
    ensures
        inv(spec_allocate(m, size, align).state),
        ({
            let outcome = spec_allocate(m, size, align);
            match outcome.result {
                Some(a) => {
                    &&& a % align == 0
                    &&& m.heap_start <= a
                    &&& a + size <= m.heap_end
                    &&& outcome.state.count == m.count + 1
                    &&& outcome.state.live == m.live.push((Block { addr: a, size: size }))
                    &&& outcome.state.heap_start == m.heap_start
                    &&& outcome.state.heap_end == m.heap_end
                },
                None => outcome.state == m,
            }
        }),
{
    let i = spec_find_suitable(m.free, size, align);
    lemma_find_suitable_valid(m.free, size, align);
    if i >= 0 {
        let b = m.free[i];
        assert(free_block_ok(m, b));
        lemma_align_up(b.addr, align);
        let aligned_start = spec_align_up(b.addr, align);
        let leftover_start = aligned_start + size;
        let end = b.addr + b.size;
        let nb = Block { addr: aligned_start, size: size };
        let removed = m.free.remove(i);
        m.free.remove_ensures(i);
        let s = spec_allocate(m, size, align).state;

        if leftover_start != end {
            lemma_align_up(leftover_start, REUSABLE_SPACE_ALIGN as int);
        }
        let off = if leftover_start == end {
            0int
        } else {
            1int
        };

        // a position k of the remaining list holds the old block at
        // position k, or k + 1 past the removed index
        assert forall|k: int| 0 <= k < removed.len() implies #[trigger] removed[k] == m.free[
            orig_index(i, k)
        ] && 0 <= orig_index(i, k) < m.free.len() && orig_index(i, k) != i by {
            if k < i {
                assert(removed[k] == m.free[k]);
            } else {
                assert(removed[k] == m.free[k + 1]);
            }
        }

        assert forall|k: int| 0 <= k < s.free.len() implies free_block_ok(
            s,
            #[trigger] s.free[k],
        ) by {
            if k >= off {
                assert(s.free[k] == removed[k - off]);
                assert(free_block_ok(m, m.free[orig_index(i, k - off)]));
            }
        }

        assert forall|k: int, l: int| 0 <= k < l < s.free.len() implies block_disjoint(
            #[trigger] s.free[k],
            #[trigger] s.free[l],
        ) by {
            let j2 = orig_index(i, l - off);
            assert(removed[l - off] == m.free[j2]);
            if k >= off {
                let j1 = orig_index(i, k - off);
                assert(removed[k - off] == m.free[j1]);
                assert(block_disjoint(m.free[j1], m.free[j2]));
            } else {
                // k names the leftover block, which lies within the removed
                // free block
                if j2 < i {
                    assert(block_disjoint(m.free[j2], m.free[i]));
                } else {
                    assert(block_disjoint(m.free[i], m.free[j2]));
                }
            }
        }

        assert forall|k: int| 0 <= k < s.live.len() implies live_block_ok(
            s,
            #[trigger] s.live[k],
        ) by {
            if k < m.live.len() {
                assert(live_block_ok(m, m.live[k]));
            }
        }

        assert forall|k: int, l: int| 0 <= k < l < s.live.len() implies block_disjoint(
            #[trigger] s.live[k],
            #[trigger] s.live[l],
        ) by {
            if l < m.live.len() {
                assert(block_disjoint(m.live[k], m.live[l]));
            } else {
                // the new block was carved out of the removed free block,
                // which was disjoint from every live block
                assert(block_disjoint(m.free[i], m.live[k]));
            }
        }

        assert forall|k: int, l: int|
            0 <= k < s.free.len() && 0 <= l < s.live.len() implies block_disjoint(
            #[trigger] s.free[k],
            #[trigger] s.live[l],
        ) by {
            if k >= off {
                let j1 = orig_index(i, k - off);
                assert(removed[k - off] == m.free[j1]);
                if l < m.live.len() {
                    assert(block_disjoint(m.free[j1], m.live[l]));
                } else {
                    // new live block lies inside the removed free block
                    if j1 < i {
                        assert(block_disjoint(m.free[j1], m.free[i]));
                    } else {
                        assert(block_disjoint(m.free[i], m.free[j1]));
                    }
                }
            } else {
                // leftover block: starts at or past the end of the new block,
                // inside the removed free block
                if l < m.live.len() {
                    assert(block_disjoint(m.free[i], m.live[l]));
                }
            }
        }
    } else {
        lemma_align_up(m.bump, align);
        let aligned_start = spec_align_up(m.bump, align);
        if aligned_start + size <= m.heap_end {
            let s = spec_allocate(m, size, align).state;
            assert forall|k: int| 0 <= k < s.free.len() implies free_block_ok(
                s,
                #[trigger] s.free[k],
            ) by {
                assert(free_block_ok(m, m.free[k]));
            }
            assert forall|k: int| 0 <= k < s.live.len() implies live_block_ok(
                s,
                #[trigger] s.live[k],
            ) by {
                if k < m.live.len() {
                    assert(live_block_ok(m, m.live[k]));
                }
            }
            assert forall|k: int, l: int| 0 <= k < l < s.live.len() implies block_disjoint(
                #[trigger] s.live[k],
                #[trigger] s.live[l],
            ) by {
                if l < m.live.len() {
                    assert(block_disjoint(m.live[k], m.live[l]));
                } else {
                    assert(live_block_ok(m, m.live[k]));
                }
            }
            assert forall|k: int, l: int|
                0 <= k < s.free.len() && 0 <= l < s.live.len() implies block_disjoint(
                #[trigger] s.free[k],
                #[trigger] s.live[l],
            ) by {
                if l < m.live.len() {
                    assert(block_disjoint(m.free[k], m.live[l]));
                } else {
                    assert(free_block_ok(m, m.free[k]));
                }
            }
        }
    }
}

/// Deallocation preserves the allocator invariant.
proof fn lemma_deallocate_preserves_inv(m: AllocatorModel, addr: int, size: int)
    requires
        inv(m),
        m.live.contains((Block { addr: addr, size: size })),
    ensures
        inv(spec_deallocate(m, addr, size)),
        spec_deallocate(m, addr, size).count == m.count - 1,
        m.count == 1 ==> spec_deallocate(m, addr, size) == initial_model(
            m.heap_start,
            m.heap_end,
        ),
{
    let b = Block { addr: addr, size: size };
    m.live.index_of_first_ensures(b);
    let idx = m.live.index_of_first(b).unwrap();
    let live1 = m.live.remove(idx);
    m.live.remove_ensures(idx);
    assert(live_block_ok(m, m.live[idx]));

    // a position k of the remaining live blocks holds the old block at
    // position k, or k + 1 past the removed index
    assert forall|k: int| 0 <= k < live1.len() implies #[trigger] live1[k] == m.live[
        orig_index(idx, k)
    ] && 0 <= orig_index(idx, k) < m.live.len() && orig_index(idx, k) != idx by {
        if k < idx {
            assert(live1[k] == m.live[k]);
        } else {
            assert(live1[k] == m.live[k + 1]);
        }
    }

    if m.count == 1 {
        let s = spec_deallocate(m, addr, size);
        assert(live1 =~= Seq::<Block>::empty());
        assert(s =~= initial_model(m.heap_start, m.heap_end));
    } else {
        let s = spec_deallocate(m, addr, size);
        let off = if size >= REUSABLE_SPACE_SIZE && addr % (REUSABLE_SPACE_ALIGN as int) == 0 {
            1int
        } else {
            0int
        };
        assert forall|k: int| 0 <= k < s.free.len() implies free_block_ok(
            s,
            #[trigger] s.free[k],
        ) by {
            if k >= off {
                assert(free_block_ok(m, m.free[k - off]));
            }
        }
        assert forall|k: int| 0 <= k < s.live.len() implies live_block_ok(
            s,
            #[trigger] s.live[k],
        ) by {
            assert(live_block_ok(m, m.live[orig_index(idx, k)]));
        }
        assert forall|k: int, l: int| 0 <= k < l < s.free.len() implies block_disjoint(
            #[trigger] s.free[k],
            #[trigger] s.free[l],
        ) by {
            if k >= off {
                assert(block_disjoint(m.free[k - off], m.free[l - off]));
            } else {
                // the freed block was live, hence disjoint from every free
                // block
                assert(block_disjoint(m.free[l - 1], m.live[idx]));
            }
        }
        assert forall|k: int, l: int| 0 <= k < l < s.live.len() implies block_disjoint(
            #[trigger] s.live[k],
            #[trigger] s.live[l],
        ) by {
            let j1 = orig_index(idx, k);
            let j2 = orig_index(idx, l);
            assert(live1[k] == m.live[j1]);
            assert(live1[l] == m.live[j2]);
            assert(block_disjoint(m.live[j1], m.live[j2]));
        }
        assert forall|k: int, l: int|
            0 <= k < s.free.len() && 0 <= l < s.live.len() implies block_disjoint(
            #[trigger] s.free[k],
            #[trigger] s.live[l],
        ) by {
            let j2 = orig_index(idx, l);
            assert(live1[l] == m.live[j2]);
            if k >= off {
                assert(block_disjoint(m.free[k - off], m.live[j2]));
            } else {
                // freed block against a remaining live block
                if j2 < idx {
                    assert(block_disjoint(m.live[j2], m.live[idx]));
                } else {
                    assert(block_disjoint(m.live[idx], m.live[j2]));
                }
            }
        }
    }
}

/// Free-list heap allocator over the fixed arena `[heap_start, heap_end)`.
pub struct LinkedListAllocator {
    /// Number of live allocations.
    alloc_refs: u64,
    /// Bump cursor: first never-yet-allocated address of the untouched tail.
    alloc_start: u64,
    /// Free list; the front of the vector is the head of the list.
    reusable: Vec<ReusableSpace>,
    /// First address of the arena.
    heap_start: u64,
    /// First address past the arena.
    heap_end: u64,
    /// The blocks currently allocated and not yet freed.
    live: Ghost<Seq<Block>>,
}

impl View for LinkedListAllocator {
    type V = AllocatorModel;

    closed spec fn view(&self) -> AllocatorModel {
        AllocatorModel {
            heap_start: self.heap_start as int,
            heap_end: self.heap_end as int,
            bump: self.alloc_start as int,
            count: self.alloc_refs as nat,
            free: slots_view(self.reusable@),
            live: self.live@,
        }
    }
}

impl LinkedListAllocator {
    /// The allocator state satisfies the allocator invariant.
    pub open spec fn wf(&self) -> bool {
        inv(self@)
    }

    /// A fresh allocator owning the arena `[heap_start, heap_end)`: no live
    /// allocations, an empty free list, and the bump cursor at the arena
    /// start.
    pub fn new(heap_start: u64, heap_end: u64) -> (r: LinkedListAllocator)
        requires
            heap_start <= heap_end,
        ensures
            r.wf(),
            r@ == initial_model(heap_start as int, heap_end as int),
    {
        let r = LinkedListAllocator {
            alloc_refs: 0,
            alloc_start: heap_start,
            reusable: Vec::new(),
            heap_start: heap_start,
            heap_end: heap_end,
            live: Ghost(Seq::empty()),
        };
        proof {
            assert(slots_view(r.reusable@) =~= Seq::<Block>::empty());
        }
        r
    }

    /// Unlinks and returns the first free-list block that can serve a request
    /// of `size` bytes at alignment `align`, as `(address, size)`; leaves the
    /// allocator unchanged when no block is suitable.
    fn find_suitable_reusable_slot(&mut self, size: u64, align: u64) -> (r: Option<(u64, u64)>)
        requires
            old(self).wf(),
            size >= 1,
            align >= 1,
        ensures
            final(self).heap_start == old(self).heap_start,
            final(self).heap_end == old(self).heap_end,
            final(self).alloc_refs == old(self).alloc_refs,
            final(self).alloc_start == old(self).alloc_start,
            final(self).live@ == old(self).live@,
            ({
                let i = spec_find_suitable(old(self)@.free, size as int, align as int);
                match r {
                    Some((addr, sz)) => {
                        &&& i >= 0
                        &&& (Block { addr: addr as int, size: sz as int }) == old(self)@.free[i]
                        &&& final(self)@.free == old(self)@.free.remove(i)
                    },
                    None => {
                        &&& i == -1
                        &&& final(self)@.free == old(self)@.free
                    },
                }
            }),
    {
        let ghost free0 = self@.free;
        let mut idx: usize = 0;
        while idx < self.reusable.len()
            invariant
                *self == *old(self),
                free0 == self@.free,
                self.wf(),
                size >= 1,
                align >= 1,
                0 <= idx <= self.reusable.len(),
                forall|j: int|
                    0 <= j < idx ==> !spec_is_suitable(#[trigger] free0[j], size as int,
                    align as int),
            decreases self.reusable.len() - idx,
        {
            proof {
                assert(free0[idx as int] == self.reusable@[idx as int].view_block());
                assert(free_block_ok(self@, free0[idx as int]));
            }
            let slot = ReusableSpace {
                addr: self.reusable[idx].addr,
                size: self.reusable[idx].size,
            };
            if slot.is_suitable(size, align) {
                proof {
                    lemma_find_suitable_here(free0, size as int, align as int, idx as int);
                }
                let removed = self.reusable.remove(idx);
                proof {
                    assert(slots_view(self.reusable@) =~= free0.remove(idx as int));
                }
                return Some((removed.addr, removed.size));
            }
            idx = idx + 1;
        }
        proof {
            lemma_find_suitable_none(free0, size as int, align as int);
        }
        None
    }

    /// Serves a request of `size` bytes at alignment `align`.
    ///
    /// The first suitable free-list block is preferred; without one the block
    /// is carved from the untouched tail of the arena at the rounded-up bump
    /// cursor.  The returned address satisfies the requested alignment
    /// exactly.  `OutOfMemory` is returned, and the allocator left unchanged,
    /// exactly when no free-list block is suitable and the rounded-up bump
    /// cursor plus `size` would pass the arena end.
    pub fn allocate(&mut self, size: u64, align: u64) -> (r: Result<u64, AllocError>)
        requires
            old(self).wf(),
            size >= 1,
            align >= 1,
            old(self)@.count < u64::MAX,
        ensures
            final(self).wf(),
            final(self)@ == spec_allocate(old(self)@, size as int, align as int).state,
            match r {
                Ok(addr) => {
                    &&& spec_allocate(old(self)@, size as int, align as int).result == Some(
                        addr as int,
                    )
                    &&& addr % align == 0
                    &&& old(self)@.heap_start <= addr
                    &&& addr + size <= old(self)@.heap_end
                    &&& final(self)@.count == old(self)@.count + 1
                    &&& final(self)@.live == old(self)@.live.push(
                        (Block { addr: addr as int, size: size as int }),
                    )
                    &&& forall|j: int|
                        0 <= j < old(self)@.live.len() ==> block_disjoint(
                            (Block { addr: addr as int, size: size as int }),
                            #[trigger] old(self)@.live[j],
                        )
                },
                Err(e) => {
                    &&& spec_allocate(old(self)@, size as int, align as int).result is None
                    &&& e == AllocError::OutOfMemory
                    &&& final(self)@ == old(self)@
                },
            },
    {
        proof {
            lemma_allocate_preserves_inv(self@, size as int, align as int);
        }
        let ghost m = self@;
        let found = self.find_suitable_reusable_slot(size, align);
        match found {
            Some((start_addr, slot_size)) => {
                proof {
                    lemma_find_suitable_valid(m.free, size as int, align as int);
                    let i = spec_find_suitable(m.free, size as int, align as int);
                    assert(free_block_ok(m, m.free[i]));
                    lemma_align_up(start_addr as int, align as int);
                }
                let remainder = start_addr % align;
                let difference = if remainder == 0 {
                    0
                } else {
                    align - remainder
                };
                let aligned_start = start_addr + difference;
                let end = start_addr + slot_size;
                let leftover_start = aligned_start + size;
                if leftover_start != end {
                    proof {
                        lemma_align_up(leftover_start as int, REUSABLE_SPACE_ALIGN as int);
                    }
                    let leftover_remainder = leftover_start % REUSABLE_SPACE_ALIGN;
                    let leftover_difference = if leftover_remainder == 0 {
                        0
                    } else {
                        REUSABLE_SPACE_ALIGN - leftover_remainder
                    };
                    let node_addr = leftover_start + leftover_difference;
                    let leftover_size = end - node_addr;
                    let ghost v1 = self.reusable@;
                    self.reusable.insert(0, ReusableSpace::new(node_addr, leftover_size));
                    proof {
                        v1.insert_ensures(0, (ReusableSpace { addr: node_addr, size: leftover_size }));
                        assert(slots_view(self.reusable@) =~= seq![
                            leftover_block(aligned_start as int, size as int, end as int),
                        ] + slots_view(v1));
                    }
                }
                self.alloc_refs = self.alloc_refs + 1;
                self.live = Ghost(
                    m.live.push(Block { addr: aligned_start as int, size: size as int }),
                );
                proof {
                    assert(self@ =~= spec_allocate(m, size as int, align as int).state);
                }
                Ok(aligned_start)
            },
            None => {
                proof {
                    lemma_align_up(self.alloc_start as int, align as int);
                }
                let remainder = self.alloc_start % align;
                let difference = if remainder == 0 {
                    0
                } else {
                    align - remainder
                };
                if difference > u64::MAX - self.alloc_start {
                    // even the rounded-up cursor cannot be represented, so it
                    // is past the arena end
                    proof {
                        assert(self@ =~= spec_allocate(m, size as int, align as int).state);
                    }
                    return Err(AllocError::OutOfMemory);
                }
                let aligned_start = self.alloc_start + difference;
                if aligned_start > self.heap_end || size > self.heap_end - aligned_start {
                    proof {
                        assert(self@ =~= spec_allocate(m, size as int, align as int).state);
                    }
                    return Err(AllocError::OutOfMemory);
                }
                self.alloc_start = aligned_start + size;
                self.alloc_refs = self.alloc_refs + 1;
                self.live = Ghost(
                    m.live.push(Block { addr: aligned_start as int, size: size as int }),
                );
                proof {
                    assert(self@ =~= spec_allocate(m, size as int, align as int).state);
                }
                Ok(aligned_start)
            },
        }
    }

    /// Returns the live block `[addr, addr + size)` to the allocator.
    ///
    /// The live-allocation count drops by one.  A freed block large enough
    /// for free-list metadata, at a metadata-aligned address, becomes the new
    /// head of the free list; a smaller or misaligned block is leaked until
    /// the arena resets.  When the count reaches zero the whole arena is
    /// reset: the bump cursor returns to the arena start and the free list is
    /// cleared.
    pub fn deallocate(&mut self, addr: u64, size: u64)
        requires
            old(self).wf(),
            old(self)@.live.contains((Block { addr: addr as int, size: size as int })),
        ensures
            final(self).wf(),
            final(self)@ == spec_deallocate(old(self)@, addr as int, size as int),
            final(self)@.count == old(self)@.count - 1,
            old(self)@.count == 1 ==> final(self)@ == initial_model(
                old(self)@.heap_start,
                old(self)@.heap_end,
            ),
    {
        proof {
            lemma_deallocate_preserves_inv(self@, addr as int, size as int);
            assert(self@.live.len() >= 1);
        }
        let ghost m = self@;
        self.alloc_refs = self.alloc_refs - 1;
        if size >= REUSABLE_SPACE_SIZE && addr % REUSABLE_SPACE_ALIGN == 0 {
            let ghost v1 = self.reusable@;
            self.reusable.insert(0, ReusableSpace::new(addr, size));
            proof {
                v1.insert_ensures(0, (ReusableSpace { addr: addr, size: size }));
                assert(slots_view(self.reusable@) =~= seq![
                    Block { addr: addr as int, size: size as int },
                ] + slots_view(v1));
            }
        }
        self.live = Ghost(m.live.remove_value(Block { addr: addr as int, size: size as int }));
        if self.alloc_refs == 0 {
            self.alloc_start = self.heap_start;
            self.reusable.clear();
        }
        proof {
            m.live.index_of_first_ensures((Block { addr: addr as int, size: size as int }));
            assert(slots_view(Seq::<ReusableSpace>::empty()) =~= Seq::<Block>::empty());
            assert(self@ =~= spec_deallocate(m, addr as int, size as int));
        }
    }

    /// Number of live allocations.
    pub fn live_allocations(&self) -> (r: u64)
        ensures
            r == self@.count,
    {
        self.alloc_refs
    }

    /// Current bump cursor: the first never-yet-allocated address of the
    /// untouched arena tail.
    pub fn bump_cursor(&self) -> (r: u64)
        ensures
            r == self@.bump,
    {
        self.alloc_start
    }

    /// Number of blocks on the free list.
    pub fn free_list_len(&self) -> (r: usize)
        ensures
            r == self@.free.len(),
    {
        self.reusable.len()
    }

    /// First address of the arena.
    pub fn arena_start(&self) -> (r: u64)
        ensures
            r == self@.heap_start,
    {
        self.heap_start
    }

    /// First address past the arena.
    pub fn arena_end(&self) -> (r: u64)
        ensures
            r == self@.heap_end,
    {
        self.heap_end
    }
}

/// No two simultaneously live allocations overlap in address range.
///
/// The allocator invariant, which `new` establishes and `allocate` and
/// `deallocate` preserve, keeps the live blocks pairwise disjoint; so the
/// property holds after any sequence of such calls.
pub proof fn lemma_live_allocations_disjoint(a: &LinkedListAllocator, i: int, j: int)
    requires
        a.wf(),
        0 <= i < a@.live.len(),
        0 <= j < a@.live.len(),
        i != j,
    ensures
        block_disjoint(a@.live[i], a@.live[j]),
{
    if i < j {
        assert(block_disjoint(a@.live[i], a@.live[j]));
    } else {
        assert(block_disjoint(a@.live[j], a@.live[i]));
    }
}

/// From a freshly constructed or fully reset allocator, an allocation that
/// fits the arena is served at the arena start rounded up to the requested
/// alignment — in particular at the arena start itself whenever that address
/// satisfies the alignment.  Together with the reset clause of `deallocate`
/// this gives bit-identical reuse of the first address after all
/// allocations have been returned.
pub proof fn lemma_fresh_allocation_address(m: AllocatorModel, size: int, align: int)
    requires
        m == initial_model(m.heap_start, m.heap_end),
        size >= 1,
        align >= 1,
        0 <= m.heap_start,
        spec_align_up(m.heap_start, align) + size <= m.heap_end,
    ensures
        spec_allocate(m, size, align).result == Some(spec_align_up(m.heap_start, align)),
        m.heap_start % align == 0 ==> spec_allocate(m, size, align).result == Some(m.heap_start),
{
    lemma_align_up(m.heap_start, align);
}

/// Returning the last live allocation resets the whole arena — the count
/// reaches zero, the bump cursor returns to the arena start and the free
/// list is cleared — and a following allocation is served at the arena
/// start rounded up to its alignment: for an alignment the arena start
/// satisfies, the very address the first allocation returned, bit for bit.
pub proof fn lemma_reset_reuse(m: AllocatorModel, addr: int, size: int, size2: int, align2: int)
    requires
        inv(m),
        m.count == 1,
        m.live.contains((Block { addr: addr, size: size })),
        size2 >= 1,
        align2 >= 1,
        spec_align_up(m.heap_start, align2) + size2 <= m.heap_end,
    ensures
        spec_deallocate(m, addr, size) == initial_model(m.heap_start, m.heap_end),
        spec_allocate(spec_deallocate(m, addr, size), size2, align2).result == Some(
            spec_align_up(m.heap_start, align2),
        ),
        m.heap_start % align2 == 0 ==> spec_allocate(
            spec_deallocate(m, addr, size),
            size2,
            align2,
        ).result == Some(m.heap_start),
{
    lemma_deallocate_preserves_inv(m, addr, size);
    lemma_fresh_allocation_address(spec_deallocate(m, addr, size), size2, align2);
}

/// Free-list-first policy: a freed block that can carry free-list metadata
/// is eligible immediately, before the bump cursor advances further.  When a
/// following request fits the freed block under the no-sliver rule, it is
/// served inside that exact block — at the block's own address whenever it
/// satisfies the requested alignment — and the bump cursor does not move.
pub proof fn lemma_freed_block_reused(
    m: AllocatorModel,
    addr: int,
    size: int,
    size2: int,
    align2: int,
)
    requires
        inv(m),
        m.live.contains((Block { addr: addr, size: size })),
        m.count >= 2,
        size >= REUSABLE_SPACE_SIZE,
        addr % (REUSABLE_SPACE_ALIGN as int) == 0,
        size2 >= 1,
        align2 >= 1,
        spec_is_suitable((Block { addr: addr, size: size }), size2, align2),
    ensures
        ({
            let m1 = spec_deallocate(m, addr, size);
            &&& spec_allocate(m1, size2, align2).result == Some(spec_align_up(addr, align2))
            &&& spec_allocate(m1, size2, align2).state.bump == m1.bump
            &&& addr % align2 == 0 ==> spec_allocate(m1, size2, align2).result == Some(addr)
        }),
{
    let b = Block { addr: addr, size: size };
    let m1 = spec_deallocate(m, addr, size);
    assert(m1.free == seq![b] + m.free);
    assert(m1.free[0] == b);
    assert(spec_find_suitable(m1.free, size2, align2) == 0);
}

/// Resource exhaustion is reported, not papered over: with an empty free
/// list, a request that does not fit the remaining untouched arena tail is
/// refused as out-of-memory and the allocator state is left unchanged.
pub proof fn lemma_exhaustion_refused(m: AllocatorModel, size: int, align: int)
    requires
        m.free.len() == 0,
        size >= 1,
        align >= 1,
        spec_align_up(m.bump, align) + size > m.heap_end,
    ensures
        spec_allocate(m, size, align).result is None,
        spec_allocate(m, size, align).state == m,
{
}

} // verus!
