//! Physical frame source and four-level page-table manager.
//!
//! The frame source consumes the firmware memory map — an ordered list of
//! physical regions marked usable or reserved — and hands out frame-sized,
//! frame-aligned chunks of the usable regions through a monotone cursor.
//! Frames are never reclaimed here; reclamation happens entirely through
//! virtual-memory unmapping and heap reuse.
//!
//! The page-table manager builds the four-level tree that maps virtual pages
//! to physical frames, widening the permission flags of shared intermediate
//! entries and refusing double maps and double unmaps as protocol
//! violations.  The address translator walks the same tree read-only.
//!
//! In the kernel the tree lives in physical memory and is reached through
//! the physical-memory mapping offset; here it is an explicit owned value,
//! so every operation can be checked against a synthetic memory map.

use vstd::prelude::*;

verus! {

use crate::allocator::lemma_align_up;
use crate::allocator::spec_align_up;

/// Size in bytes of a physical frame and of a virtual page.
pub const PAGE_SIZE: u64 = 4096;

/// Number of entries of a page-table node.
pub const PAGE_TABLE_ENTRIES: usize = 512;

/// Mapping is present.
pub const FLAG_PRESENT: u64 = 1;

/// Mapping is writable.
pub const FLAG_WRITABLE: u64 = 2;

/// Mapping is reachable from user mode.
pub const FLAG_USER_ACCESSIBLE: u64 = 4;

/// Permission flags of a page-table entry.
#[derive(Debug, Clone, Copy, PartialEq, Eq, Structural)]
pub struct PageTableFlags {
    /// Flag bits, a union of the `FLAG_` constants.
    pub bits: u64,
}

impl PageTableFlags {
    /// Flags with the given bits set.
    pub fn new(bits: u64) -> (r: PageTableFlags)
        ensures
            r.bits == bits,
    {
        PageTableFlags { bits: bits }
    }

    /// Flags with no bit set.
    pub fn empty() -> (r: PageTableFlags)
        ensures
            r.bits == 0,
    {
        PageTableFlags { bits: 0 }
    }

    /// No bit is set.
    pub fn is_empty(&self) -> (r: bool)
        ensures
            r == (self.bits == 0),
    {
        self.bits == 0
    }

    /// Every bit of `other` is also set in `self`.
    pub fn contains(&self, other: PageTableFlags) -> (r: bool)
        ensures
            r == (self.bits & other.bits == other.bits),
    {
        self.bits & other.bits == other.bits
    }

    /// The union of the two flag sets: flags are widened, never narrowed.
    pub fn union(&self, other: PageTableFlags) -> (r: PageTableFlags)
        ensures
            r.bits == self.bits | other.bits,
    {
        PageTableFlags { bits: self.bits | other.bits }
    }
}

/// A region of the firmware memory map: the physical addresses
/// `[start, end)`, marked usable or reserved.
#[derive(Debug, Clone, Copy, PartialEq, Eq, Structural)]
pub struct MemRegion {
    /// First physical address of the region.
    pub start: u64,
    /// First physical address past the region.
    pub end: u64,
    /// Whether the firmware marked the region usable.
    pub usable: bool,
}

/// The frame-aligned frames `[a, a + PAGE_SIZE)` that fit entirely inside a
/// usable region, in address order; a reserved region contributes none.
pub open spec fn spec_region_frames(r: MemRegion) -> Seq<int> {
    if !r.usable {
        Seq::empty()
    } else {
        let first = spec_align_up(r.start as int, PAGE_SIZE as int);
        if first + PAGE_SIZE <= r.end {
            Seq::new((((r.end - first) / (PAGE_SIZE as int))) as nat, |i: int| first + i * PAGE_SIZE)
        } else {
            Seq::empty()
        }
    }
}

/// All usable frames of the memory map, region by region in map order.
pub open spec fn spec_frames(regions: Seq<MemRegion>) -> Seq<int>
    decreases regions.len(),
{
    if regions.len() == 0 {
        Seq::empty()
    } else {
        spec_region_frames(regions[0]) + spec_frames(regions.drop_first())
    }
}

/// Every usable frame is frame-aligned, fits in a machine word, and lies
/// inside the usable region it was split from.
pub proof fn lemma_region_frames_aligned(r: MemRegion, i: int)
    requires
        0 <= i < spec_region_frames(r).len(),
    ensures
        spec_region_frames(r)[i] % (PAGE_SIZE as int) == 0,
        r.start <= spec_region_frames(r)[i],
        spec_region_frames(r)[i] + PAGE_SIZE <= r.end,
{
    let first = spec_align_up(r.start as int, PAGE_SIZE as int);
    let count = (r.end - first) / (PAGE_SIZE as int);
    lemma_align_up(r.start as int, PAGE_SIZE as int);
    assert(spec_region_frames(r)[i] == first + i * PAGE_SIZE);
    assert((first + i * PAGE_SIZE) % (PAGE_SIZE as int) == 0) by (nonlinear_arith)
        requires
            first % (PAGE_SIZE as int) == 0,
            PAGE_SIZE as int > 0,
            i >= 0,
    ;
    assert(i * PAGE_SIZE >= 0) by (nonlinear_arith)
        requires
            i >= 0,
    ;
    assert((i + 1) * PAGE_SIZE <= count * PAGE_SIZE) by (nonlinear_arith)
        requires
            i + 1 <= count,
            PAGE_SIZE as int > 0,
    ;
    vstd::arithmetic::div_mod::lemma_fundamental_div_mod(r.end - first, PAGE_SIZE as int);
    vstd::arithmetic::div_mod::lemma_mod_division_less_than_divisor(
        r.end - first,
        PAGE_SIZE as int,
    );
    assert(count * PAGE_SIZE <= r.end - first);
    assert(first + (i + 1) * PAGE_SIZE == first + i * PAGE_SIZE + PAGE_SIZE) by (nonlinear_arith);
}

/// Every frame of the memory map is frame-aligned and lies inside one of
/// the map's usable regions.
pub proof fn lemma_frames_aligned(regions: Seq<MemRegion>, i: int)
    requires
        0 <= i < spec_frames(regions).len(),
    ensures
        spec_frames(regions)[i] % (PAGE_SIZE as int) == 0,
        0 <= spec_frames(regions)[i],
        spec_frames(regions)[i] + PAGE_SIZE <= u64::MAX + 1,
        exists|j: int|
            0 <= j < regions.len() && (#[trigger] regions[j]).usable && regions[j].start <= spec_frames(
                regions,
            )[i] && spec_frames(regions)[i] + PAGE_SIZE <= regions[j].end,
    decreases regions.len(),
{
    let head = spec_region_frames(regions[0]);
    if i < head.len() {
        lemma_region_frames_aligned(regions[0], i);
        assert(regions[0].usable);
    } else {
        lemma_frames_aligned(regions.drop_first(), i - head.len());
        let rest = regions.drop_first();
        let j0 = choose|j: int|
            0 <= j < rest.len() && (#[trigger] rest[j]).usable && rest[j].start <= spec_frames(
                rest,
            )[i - head.len()] && spec_frames(rest)[i - head.len()] + PAGE_SIZE <= rest[j].end;
        assert(rest[j0] == regions[j0 + 1]);
        assert(regions[j0 + 1].usable && regions[j0 + 1].start <= spec_frames(regions)[i]
            && spec_frames(regions)[i] + PAGE_SIZE <= regions[j0 + 1].end);
    }
}

/// Over a well-formed memory map the usable frames come in strictly
/// increasing address order.
pub proof fn lemma_frames_increasing(regions: Seq<MemRegion>, i: int, j: int)
    requires
        regions_wf(regions),
        0 <= i < j < spec_frames(regions).len(),
    ensures
        spec_frames(regions)[i] + PAGE_SIZE <= spec_frames(regions)[j],
    decreases regions.len(),
{
    let head = spec_region_frames(regions[0]);
    let rest = regions.drop_first();
    if j < head.len() {
        // both frames lie in the first region, a page apart per index
        lemma_region_frames_aligned(regions[0], i);
        lemma_region_frames_aligned(regions[0], j);
        let first = spec_align_up(regions[0].start as int, PAGE_SIZE as int);
        assert(head[i] == first + i * PAGE_SIZE);
        assert(head[j] == first + j * PAGE_SIZE);
        assert(i * PAGE_SIZE + PAGE_SIZE <= j * PAGE_SIZE) by (nonlinear_arith)
            requires
                i + 1 <= j,
                PAGE_SIZE as int > 0,
        ;
    } else if i < head.len() {
        // the first frame ends within the first region; the second lies in
        // a later region, which starts no earlier than the first ends
        lemma_region_frames_aligned(regions[0], i);
        lemma_frames_aligned(rest, j - head.len());
        let jr = choose|k: int|
            0 <= k < rest.len() && (#[trigger] rest[k]).usable && rest[k].start <= spec_frames(
                rest,
            )[j - head.len()] && spec_frames(rest)[j - head.len()] + PAGE_SIZE <= rest[k].end;
        assert(rest[jr] == regions[jr + 1]);
        assert(regions[0].end <= regions[jr + 1].start);
        assert(spec_frames(regions)[j] == spec_frames(rest)[j - head.len()]);
    } else {
        assert(regions_wf(rest)) by {
            assert forall|x: int, y: int| 0 <= x < y < rest.len() implies (#[trigger] rest[x]).end
                <= (#[trigger] rest[y]).start by {
                assert(rest[x] == regions[x + 1]);
                assert(rest[y] == regions[y + 1]);
                assert(regions[x + 1].end <= regions[y + 1].start);
            }
        }
        lemma_frames_increasing(rest, i - head.len(), j - head.len());
    }
}

/// Frames come out of a well-formed memory map in strictly increasing
/// address order.
pub proof fn lemma_frames_ordered(a: &FrameAllocator, i: int, j: int)
    requires
        a.map_wf(),
        0 <= i < j < a.frames().len(),
    ensures
        a.frames()[i] + PAGE_SIZE <= a.frames()[j],
{
    lemma_frames_increasing(a.regions@, i, j);
}

/// No frame is ever handed out twice: over a well-formed memory map the
/// frame sequence has no repeats, and the source's cursor only grows, so
/// two calls never return the same frame.
pub proof fn lemma_handed_frames_distinct(a: &FrameAllocator, i: int, j: int)
    requires
        a.map_wf(),
        0 <= i < a.frames().len(),
        0 <= j < a.frames().len(),
        i != j,
    ensures
        a.frames()[i] != a.frames()[j],
{
    if i < j {
        lemma_frames_increasing(a.regions@, i, j);
    } else {
        lemma_frames_increasing(a.regions@, j, i);
    }
}

/// The memory map is well formed: its regions come in address order and do
/// not overlap, as the firmware hands them over.
pub open spec fn regions_wf(regions: Seq<MemRegion>) -> bool {
    forall|i: int, j: int|
        0 <= i < j < regions.len() ==> (#[trigger] regions[i]).end <= (#[trigger] regions[j]).start
}

/// Physical frame source: a monotone cursor over the usable frames of the
/// firmware memory map.  Frames are handed out in map order and never
/// returned.
pub struct FrameAllocator {
    /// The firmware memory map.
    regions: Vec<MemRegion>,
    /// Index of the next frame to hand out.
    next: u64,
}

impl FrameAllocator {
    /// The usable frames of the memory map, in the order they are handed
    /// out.
    pub closed spec fn frames(&self) -> Seq<int> {
        spec_frames(self.regions@)
    }

    /// Number of frames already handed out (or, past the end, of calls
    /// made).
    pub closed spec fn cursor(&self) -> u64 {
        self.next
    }

    /// The memory map behind this source is well formed: ordered and
    /// non-overlapping regions.
    pub closed spec fn map_wf(&self) -> bool {
        regions_wf(self.regions@)
    }

    /// A frame source over the given memory map, with nothing handed out
    /// yet.
    pub fn new(regions: Vec<MemRegion>) -> (r: FrameAllocator)
        ensures
            r.frames() == spec_frames(regions@),
            r.cursor() == 0,
            r.map_wf() == regions_wf(regions@),
    {
        FrameAllocator { regions: regions, next: 0 }
    }

    /// The frame at position `k` of the usable frames of
    /// `regions[start_idx ..]`, or `None` when fewer than `k + 1` frames
    /// remain there.
    fn frame_from(regions: &Vec<MemRegion>, start_idx: usize, k: u64) -> (r: Option<u64>)
        requires
            start_idx <= regions.len(),
        ensures
            ({
                let fs = spec_frames(regions@.skip(start_idx as int));
                if k < fs.len() {
                    r == Some(fs[k as int] as u64) && fs[k as int] == fs[k as int] as u64
                } else {
                    r is None
                }
            }),
        decreases regions.len() - start_idx,
    {
        let ghost suffix = regions@.skip(start_idx as int);
        if start_idx == regions.len() {
            proof {
                assert(suffix =~= Seq::<MemRegion>::empty());
            }
            return None;
        }
        proof {
            assert(suffix[0] == regions@[start_idx as int]);
            assert(suffix.drop_first() =~= regions@.skip(start_idx as int + 1));
        }
        let region = regions[start_idx];
        let ghost head = spec_region_frames(region);
        let mut count: u64 = 0;
        let mut first: u64 = 0;
        if region.usable {
            let remainder = region.start % PAGE_SIZE;
            let difference = if remainder == 0 {
                0
            } else {
                PAGE_SIZE - remainder
            };
            proof {
                lemma_align_up(region.start as int, PAGE_SIZE as int);
            }
            if difference <= u64::MAX - region.start {
                first = region.start + difference;
                if first <= u64::MAX - PAGE_SIZE && first + PAGE_SIZE <= region.end {
                    count = (region.end - first) / PAGE_SIZE;
                }
            }
        }
        proof {
            assert(count == head.len());
        }
        if k < count {
            proof {
                lemma_region_frames_aligned(region, k as int);
                assert(head[k as int] == first + k * PAGE_SIZE);
                assert(spec_frames(suffix)[k as int] == head[k as int]);
            }
            Some(first + k * PAGE_SIZE)
        } else {
            let r = Self::frame_from(regions, start_idx + 1, k - count);
            proof {
                let rest = spec_frames(regions@.skip(start_idx as int + 1));
                if k < spec_frames(suffix).len() {
                    assert(spec_frames(suffix)[k as int] == rest[k - count]);
                }
            }
            r
        }
    }

    /// Hands out the next usable frame and advances the cursor; returns
    /// `None`, still advancing the cursor, once the usable frames are
    /// exhausted.  A handed-out frame is frame-aligned, and over a
    /// well-formed memory map no frame is ever handed out twice
    /// (`lemma_handed_frames_distinct`).
    pub fn allocate_frame(&mut self) -> (r: Option<u64>)
        requires
            old(self).cursor() < u64::MAX,
        ensures
            final(self).frames() == old(self).frames(),
            final(self).map_wf() == old(self).map_wf(),
            final(self).cursor() == old(self).cursor() + 1,
            old(self).cursor() < old(self).frames().len() ==> r == Some(
                old(self).frames()[old(self).cursor() as int] as u64,
            ) && old(self).frames()[old(self).cursor() as int] == old(self).frames()[old(
                self,
            ).cursor() as int] as u64 && (old(self).frames()[old(self).cursor() as int] as u64)
                % PAGE_SIZE == 0,
            old(self).cursor() >= old(self).frames().len() ==> r is None,
    {
        let r = Self::frame_from(&self.regions, 0, self.next);
        proof {
            assert(self.regions@.skip(0) =~= self.regions@);
            if self.next < self.frames().len() {
                lemma_frames_aligned(self.regions@, self.next as int);
            }
        }
        self.next = self.next + 1;
        r
    }

    /// Whether at least `n` more frames can be handed out.
    pub fn has_frames(&self, n: u64) -> (r: bool)
        requires
            1 <= n,
            self.cursor() + n <= u64::MAX,
        ensures
            r == (self.cursor() + n <= self.frames().len()),
    {
        proof {
            assert(self.regions@.skip(0) =~= self.regions@);
        }
        let r = Self::frame_from(&self.regions, 0, self.next + (n - 1));
        r.is_some()
    }
}

/// An entry of a page-table node.
pub enum PageTableEntry {
    /// The entry is unused.
    Unused,
    /// A leaf entry: the virtual page is mapped to the frame at `frame`.
    Mapped { frame: u64, flags: PageTableFlags },
    /// A non-leaf entry: the frame at `frame` holds the child node.
    Table { frame: u64, flags: PageTableFlags, node: PageTableNode },
}

/// A page-table node: a fixed array of entries.  Four levels of nodes form
/// the tree, rooted at the top-level node.
pub struct PageTableNode {
    /// The entries of the node.
    pub entries: Vec<PageTableEntry>,
}

/// A node at `level` (4 for the root down to 1 for the leaf level) is well
/// formed: it has the full complement of entries and each entry is well
/// formed for that level.
pub open spec fn node_wf(node: PageTableNode, level: nat) -> bool
    decreases level, 1int,
{
    &&& node.entries.len() == PAGE_TABLE_ENTRIES
    &&& forall|i: int|
        0 <= i < node.entries.len() ==> entry_wf(#[trigger] node.entries[i], level)
}

/// A used leaf entry holds a frame-aligned frame and stands only at the
/// leaf level; a used non-leaf entry holds a frame-aligned frame backing a
/// well-formed node one level down.
pub open spec fn entry_wf(e: PageTableEntry, level: nat) -> bool
    decreases level, 0int,
{
    match e {
        PageTableEntry::Unused => true,
        PageTableEntry::Mapped { frame, flags } => level == 1 && frame % PAGE_SIZE == 0,
        PageTableEntry::Table { frame, flags, node } => level >= 2 && frame % PAGE_SIZE == 0
            && node_wf(node, (level - 1) as nat),
    }
}

/// The leaf mapping recorded for the path `(i4, i3, i2, i1)` through the
/// tree: the frame and flags, or `None` when any entry along the path is
/// unused.
pub open spec fn entry_at(root: PageTableNode, i4: int, i3: int, i2: int, i1: int) -> Option<
    (u64, PageTableFlags),
> {
    match root.entries[i4] {
        PageTableEntry::Table { node: n3, .. } => match n3.entries[i3] {
            PageTableEntry::Table { node: n2, .. } => match n2.entries[i2] {
                PageTableEntry::Table { node: n1, .. } => match n1.entries[i1] {
                    PageTableEntry::Mapped { frame, flags } => Some((frame, flags)),
                    _ => None,
                },
                _ => None,
            },
            _ => None,
        },
        _ => None,
    }
}

/// Flags of the top-level entry at `i4`, or `None` when it is unused.
pub open spec fn l4_entry(root: PageTableNode, i4: int) -> Option<PageTableFlags> {
    match root.entries[i4] {
        PageTableEntry::Table { flags, .. } => Some(flags),
        _ => None,
    }
}

/// Flags of the middle-level entry reached through `(i4, i3)`, or `None`.
pub open spec fn l3_entry(root: PageTableNode, i4: int, i3: int) -> Option<PageTableFlags> {
    match root.entries[i4] {
        PageTableEntry::Table { node: n3, .. } => match n3.entries[i3] {
            PageTableEntry::Table { flags, .. } => Some(flags),
            _ => None,
        },
        _ => None,
    }
}

/// Flags of the lower-middle-level entry reached through `(i4, i3, i2)`,
/// or `None`.
pub open spec fn l2_entry(root: PageTableNode, i4: int, i3: int, i2: int) -> Option<
    PageTableFlags,
> {
    match root.entries[i4] {
        PageTableEntry::Table { node: n3, .. } => match n3.entries[i3] {
            PageTableEntry::Table { node: n2, .. } => match n2.entries[i2] {
                PageTableEntry::Table { flags, .. } => Some(flags),
                _ => None,
            },
            _ => None,
        },
        _ => None,
    }
}

/// Frame named by the top-level entry at `i4`, or `None` when it is
/// unused.
pub open spec fn l4_frame(root: PageTableNode, i4: int) -> Option<u64> {
    match root.entries[i4] {
        PageTableEntry::Table { frame, .. } => Some(frame),
        _ => None,
    }
}

/// Frame named by the middle-level entry reached through `(i4, i3)`, or
/// `None`.
pub open spec fn l3_frame(root: PageTableNode, i4: int, i3: int) -> Option<u64> {
    match root.entries[i4] {
        PageTableEntry::Table { node: n3, .. } => match n3.entries[i3] {
            PageTableEntry::Table { frame, .. } => Some(frame),
            _ => None,
        },
        _ => None,
    }
}

/// Frame named by the lower-middle-level entry reached through
/// `(i4, i3, i2)`, or `None`.
pub open spec fn l2_frame(root: PageTableNode, i4: int, i3: int, i2: int) -> Option<u64> {
    match root.entries[i4] {
        PageTableEntry::Table { node: n3, .. } => match n3.entries[i3] {
            PageTableEntry::Table { node: n2, .. } => match n2.entries[i2] {
                PageTableEntry::Table { frame, .. } => Some(frame),
                _ => None,
            },
            _ => None,
        },
        _ => None,
    }
}

/// Frame of the leaf mapping recorded for the path `(i4, i3, i2, i1)`, or
/// `None` when the page is not mapped.
pub open spec fn leaf_frame(root: PageTableNode, i4: int, i3: int, i2: int, i1: int) -> Option<
    u64,
> {
    match entry_at(root, i4, i3, i2, i1) {
        Some((frame, flags)) => Some(frame),
        None => None,
    }
}

/// How many entries along the path `(i4, i3, i2, i1)` are used: 0 when the
/// top-level entry is unused, up to 4 when the leaf entry itself is used.
pub open spec fn path_depth(root: PageTableNode, i4: int, i3: int, i2: int, i1: int) -> int {
    match root.entries[i4] {
        PageTableEntry::Table { node: n3, .. } => match n3.entries[i3] {
            PageTableEntry::Table { node: n2, .. } => match n2.entries[i2] {
                PageTableEntry::Table { node: n1, .. } => match n1.entries[i1] {
                    PageTableEntry::Unused => 3,
                    _ => 4,
                },
                _ => 2,
            },
            _ => 1,
        },
        _ => 0,
    }
}

/// The flags that an intermediate entry carries after a map request with
/// `flags`: the request's flags for a freshly created entry, the union for
/// an existing one — flags are widened, never narrowed.
pub open spec fn widened(old_flags: Option<PageTableFlags>, flags: PageTableFlags) -> PageTableFlags {
    match old_flags {
        Some(f) => PageTableFlags { bits: f.bits | flags.bits },
        None => flags,
    }
}

/// Top-level page-table index of a virtual address: bits 39 to 47.
pub open spec fn spec_p4_index(addr: u64) -> u64 {
    (addr >> 39) & 0x1ff
}

/// Second-level page-table index of a virtual address: bits 30 to 38.
pub open spec fn spec_p3_index(addr: u64) -> u64 {
    (addr >> 30) & 0x1ff
}

/// Third-level page-table index of a virtual address: bits 21 to 29.
pub open spec fn spec_p2_index(addr: u64) -> u64 {
    (addr >> 21) & 0x1ff
}

/// Leaf-level page-table index of a virtual address: bits 12 to 20.
pub open spec fn spec_p1_index(addr: u64) -> u64 {
    (addr >> 12) & 0x1ff
}

/// Offset of a virtual address within its page: bits 0 to 11.
pub open spec fn spec_page_offset(addr: u64) -> u64 {
    addr & 0xfff
}

/// The physical address that the tree resolves a virtual address to: the
/// mapped frame's base plus the address's page offset, or `None` when the
/// page is not mapped.
pub open spec fn spec_translate(root: PageTableNode, addr: u64) -> Option<u64> {
    match entry_at(
        root,
        spec_p4_index(addr) as int,
        spec_p3_index(addr) as int,
        spec_p2_index(addr) as int,
        spec_p1_index(addr) as int,
    ) {
        Some((frame, flags)) => Some((frame + spec_page_offset(addr)) as u64),
        None => None,
    }
}

/// A virtual page, identified by its page-aligned start address (bits 12 to
/// 47 of the virtual address).
#[derive(Debug, Clone, Copy, PartialEq, Eq, Structural)]
pub struct Page {
    start: u64,
}

impl Page {
    /// The page-aligned start address of the page.
    pub closed spec fn spec_start(&self) -> u64 {
        self.start
    }

    /// The page containing the virtual address `addr`.
    pub fn containing_address(addr: u64) -> (r: Page)
        ensures
            r.spec_start() == addr & 0xffff_ffff_f000u64,
            r.spec_start() % PAGE_SIZE == 0,
            spec_p4_index(r.spec_start()) == spec_p4_index(addr),
            spec_p3_index(r.spec_start()) == spec_p3_index(addr),
            spec_p2_index(r.spec_start()) == spec_p2_index(addr),
            spec_p1_index(r.spec_start()) == spec_p1_index(addr),
    {
        let start = addr & 0xffff_ffff_f000u64;
        proof {
            lemma_page_base(addr);
        }
        Page { start: start }
    }

    /// The page's start address.
    pub fn start_address(&self) -> (r: u64)
        ensures
            r == self.spec_start(),
    {
        self.start
    }

    /// Top-level index of the page's path through the tree.
    pub fn p4_index(&self) -> (r: usize)
        ensures
            r == spec_p4_index(self.spec_start()),
            r < 512,
    {
        proof {
            lemma_page_indices_bounded(self.start);
        }
        ((self.start >> 39) & 0x1ff) as usize
    }

    /// Second-level index of the page's path through the tree.
    pub fn p3_index(&self) -> (r: usize)
        ensures
            r == spec_p3_index(self.spec_start()),
            r < 512,
    {
        proof {
            lemma_page_indices_bounded(self.start);
        }
        ((self.start >> 30) & 0x1ff) as usize
    }

    /// Third-level index of the page's path through the tree.
    pub fn p2_index(&self) -> (r: usize)
        ensures
            r == spec_p2_index(self.spec_start()),
            r < 512,
    {
        proof {
            lemma_page_indices_bounded(self.start);
        }
        ((self.start >> 21) & 0x1ff) as usize
    }

    /// Leaf-level index of the page's path through the tree.
    pub fn p1_index(&self) -> (r: usize)
        ensures
            r == spec_p1_index(self.spec_start()),
            r < 512,
    {
        proof {
            lemma_page_indices_bounded(self.start);
        }
        ((self.start >> 12) & 0x1ff) as usize
    }
}

/// Failure of a page-mapping operation.  All three are fatal for the
/// kernel: a corrupted address space cannot be safely continued, so callers
/// must not treat them as recoverable.
#[derive(Debug, Clone, Copy, PartialEq, Eq, Structural)]
pub enum MapError {
    /// The frame source ran out of usable frames.
    FrameExhausted,
    /// The page is already mapped: mapping it again is a protocol
    /// violation.
    AlreadyMapped,
    /// The page is not mapped: unmapping it is a protocol violation.
    NotMapped,
}

impl PageTableNode {
    /// A zero-initialized node: the full complement of entries, all unused.
    ///
    /// Newly created nodes are eagerly zeroed; an uninitialized node's
    /// entries would not be guaranteed to read as unused, which would
    /// corrupt the used/unused discipline for unrelated mappings sharing
    /// the node.
    pub fn zeroed() -> (r: PageTableNode)
        ensures
            r.entries.len() == PAGE_TABLE_ENTRIES,
            forall|i: int| 0 <= i < PAGE_TABLE_ENTRIES ==> r.entries[i] is Unused,
            forall|level: nat| node_wf(r, level),
    {
        let mut entries: Vec<PageTableEntry> = Vec::new();
        let mut i: usize = 0;
        while i < PAGE_TABLE_ENTRIES
            invariant
                i <= PAGE_TABLE_ENTRIES,
                entries.len() == i,
                forall|j: int| 0 <= j < i ==> entries[j] is Unused,
            decreases PAGE_TABLE_ENTRIES - i,
        {
            entries.push(PageTableEntry::Unused);
            i = i + 1;
        }
        let r = PageTableNode { entries: entries };
        proof {
            assert forall|level: nat| node_wf(r, level) by {
                assert(forall|j: int| 0 <= j < r.entries.len() ==> entry_wf(
                    #[trigger] r.entries[j],
                    level,
                ));
            }
        }
        r
    }
}

/// How many entries along the path `(i4, i3, i2, i1)` are used, walking the
/// tree read-only.
fn walk_path_depth(l4: &PageTableNode, i4: usize, i3: usize, i2: usize, i1: usize) -> (d: u64)
    requires
        node_wf(*l4, 4),
        i4 < 512,
        i3 < 512,
        i2 < 512,
        i1 < 512,
    ensures
        d == path_depth(*l4, i4 as int, i3 as int, i2 as int, i1 as int),
        0 <= d <= 4,
{
    proof {
        assert(entry_wf(l4.entries[i4 as int], 4));
    }
    match &l4.entries[i4] {
        PageTableEntry::Table { node: n3, .. } => {
            proof {
                assert(entry_wf(n3.entries[i3 as int], 3));
            }
            match &n3.entries[i3] {
                PageTableEntry::Table { node: n2, .. } => {
                    proof {
                        assert(entry_wf(n2.entries[i2 as int], 2));
                    }
                    match &n2.entries[i2] {
                        PageTableEntry::Table { node: n1, .. } => {
                            match &n1.entries[i1] {
                                PageTableEntry::Unused => 3,
                                _ => 4,
                            }
                        },
                        _ => 2,
                    }
                },
                _ => 1,
            }
        },
        _ => 0,
    }
}

/// Ensures a child node exists behind `entry` and returns whether one was
/// created.
///
/// An unused entry receives a frame from the frame source and a freshly
/// zero-initialized node with the requested flags; an existing entry keeps
/// its frame and node and has its flags widened by the requested bits.
fn create_page_table(
    entry: &mut PageTableEntry,
    frame_allocator: &mut FrameAllocator,
    flags: PageTableFlags,
    Ghost(level): Ghost<nat>,
) -> (created: bool)
    requires
        entry_wf(*old(entry), level),
        level >= 2,
        old(frame_allocator).cursor() < u64::MAX,
        (*old(entry)) is Unused ==> old(frame_allocator).cursor() < old(
            frame_allocator,
        ).frames().len(),
    ensures
        final(frame_allocator).frames() == old(frame_allocator).frames(),
        final(frame_allocator).map_wf() == old(frame_allocator).map_wf(),
        entry_wf(*final(entry), level),
        match *old(entry) {
            PageTableEntry::Unused => {
                &&& created
                &&& final(frame_allocator).cursor() == old(frame_allocator).cursor() + 1
                &&& (*final(entry)) matches PageTableEntry::Table { frame, flags: fl, node }
                    && frame == old(frame_allocator).frames()[old(frame_allocator).cursor() as int]
                    && fl == flags && node.entries.len() == PAGE_TABLE_ENTRIES && (forall|i: int|
                    0 <= i < PAGE_TABLE_ENTRIES ==> node.entries[i] is Unused)
            },
            PageTableEntry::Table { frame: f0, flags: fl0, node: n0 } => {
                &&& !created
                &&& final(frame_allocator).cursor() == old(frame_allocator).cursor()
                &&& *final(entry) == (PageTableEntry::Table {
                    frame: f0,
                    flags: widened(Some(fl0), flags),
                    node: n0,
                })
            },
            PageTableEntry::Mapped { .. } => false,
        },
{
    let is_unused = match entry {
        PageTableEntry::Unused => true,
        _ => false,
    };
    if is_unused {
        let frame = match frame_allocator.allocate_frame() {
            Some(f) => f,
            None => {
                proof {
                    assert(false);
                }
                return false;
            },
        };
        let node = PageTableNode::zeroed();
        proof {
            assert(frame % PAGE_SIZE == 0);
            assert(node_wf(node, (level - 1) as nat));
        }
        *entry = PageTableEntry::Table { frame: frame, flags: flags, node: node };
        proof {
            assert(entry_wf(*entry, level));
        }
        true
    } else {
        match entry {
            PageTableEntry::Table { flags: fl, .. } => {
                let merged = fl.bits | flags.bits;
                *fl = PageTableFlags { bits: merged };
            },
            _ => {
                proof {
                    assert(false);
                }
            },
        }
        false
    }
}

/// Maps `page` to a fresh usable frame with the given flags.
///
/// The leaf frame is drawn from the frame source; each missing node along
/// the path is created from a further frame and zero-initialized, and the
/// flags of existing entries along the path are widened by the requested
/// bits.  Mapping an already-mapped page is refused as a protocol
/// violation, and exhaustion of the frame source is reported; in both
/// cases nothing is changed.  On success the mapped frame is returned.
pub fn map_virt(
    l4: &mut PageTableNode,
    page: Page,
    flags: PageTableFlags,
    frame_allocator: &mut FrameAllocator,
) -> (r: Result<u64, MapError>)
    requires
        node_wf(*old(l4), 4),
        old(frame_allocator).cursor() + 4 <= u64::MAX,
    ensures
        node_wf(*final(l4), 4),
        final(frame_allocator).frames() == old(frame_allocator).frames(),
        final(frame_allocator).map_wf() == old(frame_allocator).map_wf(),
        ({
            let i4 = spec_p4_index(page.spec_start()) as int;
            let i3 = spec_p3_index(page.spec_start()) as int;
            let i2 = spec_p2_index(page.spec_start()) as int;
            let i1 = spec_p1_index(page.spec_start()) as int;
            let depth = path_depth(*old(l4), i4, i3, i2, i1);
            let c0 = old(frame_allocator).cursor() as int;
            match r {
                Ok(frame) => {
                    &&& depth < 4
                    &&& c0 + (4 - depth) <= old(frame_allocator).frames().len()
                    &&& final(frame_allocator).cursor() == c0 + (4 - depth)
                    &&& frame == old(frame_allocator).frames()[c0]
                    &&& frame % PAGE_SIZE == 0
                    &&& entry_at(*final(l4), i4, i3, i2, i1) == Some((frame, flags))
                    &&& forall|j4: int, j3: int, j2: int, j1: int|
                        0 <= j4 < 512 && 0 <= j3 < 512 && 0 <= j2 < 512 && 0 <= j1 < 512 && !(j4
                            == i4 && j3 == i3 && j2 == i2 && j1 == i1) ==> #[trigger] entry_at(
                            *final(l4),
                            j4,
                            j3,
                            j2,
                            j1,
                        ) == entry_at(*old(l4), j4, j3, j2, j1)
                    &&& l4_entry(*final(l4), i4) == Some(widened(l4_entry(*old(l4), i4), flags))
                    &&& l3_entry(*final(l4), i4, i3) == Some(
                        widened(l3_entry(*old(l4), i4, i3), flags),
                    )
                    &&& l2_entry(*final(l4), i4, i3, i2) == Some(
                        widened(l2_entry(*old(l4), i4, i3, i2), flags),
                    )
                    &&& l4_entry(*old(l4), i4) is Some ==> l4_frame(*final(l4), i4) == l4_frame(
                        *old(l4),
                        i4,
                    )
                    &&& l3_entry(*old(l4), i4, i3) is Some ==> l3_frame(*final(l4), i4, i3)
                        == l3_frame(*old(l4), i4, i3)
                    &&& l2_entry(*old(l4), i4, i3, i2) is Some ==> l2_frame(*final(l4), i4, i3, i2)
                        == l2_frame(*old(l4), i4, i3, i2)
                },
                Err(e) => {
                    &&& *final(l4) == *old(l4)
                    &&& final(frame_allocator).cursor() == old(frame_allocator).cursor()
                    &&& (e == MapError::AlreadyMapped || e == MapError::FrameExhausted)
                    &&& (e == MapError::AlreadyMapped <==> depth == 4)
                    &&& e == MapError::FrameExhausted <==> (depth < 4 && c0 + (4 - depth) > old(
                        frame_allocator,
                    ).frames().len())
                },
            }
        }),
{
    let i4 = page.p4_index();
    let i3 = page.p3_index();
    let i2 = page.p2_index();
    let i1 = page.p1_index();
    let ghost m0 = *l4;

    let depth = walk_path_depth(l4, i4, i3, i2, i1);
    if depth == 4 {
        return Err(MapError::AlreadyMapped);
    }
    let needed = 4 - depth;
    if !frame_allocator.has_frames(needed) {
        return Err(MapError::FrameExhausted);
    }

    let frame = match frame_allocator.allocate_frame() {
        Some(f) => f,
        None => {
            proof {
                assert(false);
            }
            return Err(MapError::FrameExhausted);
        },
    };

    proof {
        assert(entry_wf(m0.entries[i4 as int], 4));
    }
    let mut e4 = l4.entries.remove(i4);
    let created4 = create_page_table(&mut e4, frame_allocator, flags, Ghost(4nat));
    match e4 {
        PageTableEntry::Table { frame: f4, flags: fl4, node: mut n3 } => {
            proof {
                if !created4 {
                    assert(m0.entries[i4 as int] matches PageTableEntry::Table { node: o3, .. }
                        && node_wf(o3, 3) && entry_wf(o3.entries[i3 as int], 3));
                }
            }
            let ghost n3a = n3;
            let mut e3 = n3.entries.remove(i3);
            let created3 = create_page_table(&mut e3, frame_allocator, flags, Ghost(3nat));
            match e3 {
                PageTableEntry::Table { frame: f3, flags: fl3, node: mut n2 } => {
                    proof {
                        if !created3 {
                            assert(n3a.entries[i3 as int] matches PageTableEntry::Table {
                                node: o2,
                                ..
                            } && node_wf(o2, 2) && entry_wf(o2.entries[i2 as int], 2));
                        }
                    }
                    let ghost n2a = n2;
                    let mut e2 = n2.entries.remove(i2);
                    let created2 = create_page_table(&mut e2, frame_allocator, flags, Ghost(2nat));
                    match e2 {
                        PageTableEntry::Table { frame: f2, flags: fl2, node: mut n1 } => {
                            proof {
                                if !created2 {
                                    assert(n2a.entries[i2 as int]
                                        matches PageTableEntry::Table { node: o1, .. } && node_wf(
                                        o1,
                                        1,
                                    ) && entry_wf(o1.entries[i1 as int], 1));
                                }
                            }
                            let ghost n1a = n1;
                            let e1 = n1.entries.remove(i1);
                            proof {
                                assert(e1 is Unused);
                            }
                            n1.entries.insert(i1, PageTableEntry::Mapped { frame: frame, flags: flags });
                            let ghost n1f = n1;
                            n2.entries.insert(
                                i2,
                                PageTableEntry::Table { frame: f2, flags: fl2, node: n1 },
                            );
                            let ghost n2f = n2;
                            n3.entries.insert(
                                i3,
                                PageTableEntry::Table { frame: f3, flags: fl3, node: n2 },
                            );
                            let ghost n3f = n3;
                            l4.entries.insert(
                                i4,
                                PageTableEntry::Table { frame: f4, flags: fl4, node: n3 },
                            );
                            proof {
                                lemma_map_virt_result(
                                    m0,
                                    *l4,
                                    n3a,
                                    n3f,
                                    n2a,
                                    n2f,
                                    n1a,
                                    n1f,
                                    i4 as int,
                                    i3 as int,
                                    i2 as int,
                                    i1 as int,
                                    frame,
                                    flags,
                                    f4,
                                    fl4,
                                    f3,
                                    fl3,
                                    f2,
                                    fl2,
                                    created4,
                                    created3,
                                    created2,
                                );
                            }
                            Ok(frame)
                        },
                        _ => {
                            proof {
                                assert(false);
                            }
                            Err(MapError::FrameExhausted)
                        },
                    }
                },
                _ => {
                    proof {
                        assert(false);
                    }
                    Err(MapError::FrameExhausted)
                },
            }
        },
        _ => {
            proof {
                assert(false);
            }
            Err(MapError::FrameExhausted)
        },
    }
}

/// The shape of the tree after a successful map: well-formedness, the new
/// leaf, untouched leaves elsewhere, and widened flags along the path.
#[verifier::rlimit(60)]
proof fn lemma_map_virt_result(
    m0: PageTableNode,
    mf: PageTableNode,
    n3a: PageTableNode,
    n3f: PageTableNode,
    n2a: PageTableNode,
    n2f: PageTableNode,
    n1a: PageTableNode,
    n1f: PageTableNode,
    i4: int,
    i3: int,
    i2: int,
    i1: int,
    frame: u64,
    flags: PageTableFlags,
    f4: u64,
    fl4: PageTableFlags,
    f3: u64,
    fl3: PageTableFlags,
    f2: u64,
    fl2: PageTableFlags,
    created4: bool,
    created3: bool,
    created2: bool,
)
    requires
        node_wf(m0, 4),
        0 <= i4 < 512,
        0 <= i3 < 512,
        0 <= i2 < 512,
        0 <= i1 < 512,
        frame % PAGE_SIZE == 0,
        // the entry of the root, before and after
        created4 <==> m0.entries[i4] is Unused,
        !created4 ==> (m0.entries[i4] matches PageTableEntry::Table {
            frame: of,
            flags: ofl,
            node: onode,
        } && of == f4 && onode == n3a && fl4 == widened(Some(ofl), flags)),
        created4 ==> f4 % PAGE_SIZE == 0 && fl4 == flags && n3a.entries.len() == 512 && (forall|
            j: int,
        |
            0 <= j < 512 ==> n3a.entries[j] is Unused),
        // the entry one level down, before and after
        created3 <==> n3a.entries[i3] is Unused,
        !created3 ==> (n3a.entries[i3] matches PageTableEntry::Table {
            frame: of,
            flags: ofl,
            node: onode,
        } && of == f3 && onode == n2a && fl3 == widened(Some(ofl), flags)),
        created3 ==> f3 % PAGE_SIZE == 0 && fl3 == flags && n2a.entries.len() == 512 && (forall|
            j: int,
        |
            0 <= j < 512 ==> n2a.entries[j] is Unused),
        // the entry two levels down, before and after
        created2 <==> n2a.entries[i2] is Unused,
        !created2 ==> (n2a.entries[i2] matches PageTableEntry::Table {
            frame: of,
            flags: ofl,
            node: onode,
        } && of == f2 && onode == n1a && fl2 == widened(Some(ofl), flags)),
        created2 ==> f2 % PAGE_SIZE == 0 && fl2 == flags && n1a.entries.len() == 512 && (forall|
            j: int,
        |
            0 <= j < 512 ==> n1a.entries[j] is Unused),
        n1a.entries[i1] is Unused,
        // the rebuilt nodes
        n1f.entries@ == n1a.entries@.remove(i1).insert(
            i1,
            (PageTableEntry::Mapped { frame: frame, flags: flags }),
        ),
        n2f.entries@ == n2a.entries@.remove(i2).insert(
            i2,
            (PageTableEntry::Table { frame: f2, flags: fl2, node: n1f }),
        ),
        n3f.entries@ == n3a.entries@.remove(i3).insert(
            i3,
            (PageTableEntry::Table { frame: f3, flags: fl3, node: n2f }),
        ),
        mf.entries@ == m0.entries@.remove(i4).insert(
            i4,
            (PageTableEntry::Table { frame: f4, flags: fl4, node: n3f }),
        ),
    ensures
        node_wf(mf, 4),
        entry_at(mf, i4, i3, i2, i1) == Some((frame, flags)),
        forall|j4: int, j3: int, j2: int, j1: int|
            0 <= j4 < 512 && 0 <= j3 < 512 && 0 <= j2 < 512 && 0 <= j1 < 512 && !(j4 == i4 && j3
                == i3 && j2 == i2 && j1 == i1) ==> #[trigger] entry_at(mf, j4, j3, j2, j1)
                == entry_at(m0, j4, j3, j2, j1),
        l4_entry(mf, i4) == Some(widened(l4_entry(m0, i4), flags)),
        l3_entry(mf, i4, i3) == Some(widened(l3_entry(m0, i4, i3), flags)),
        l2_entry(mf, i4, i3, i2) == Some(widened(l2_entry(m0, i4, i3, i2), flags)),
        l4_entry(m0, i4) is Some ==> l4_frame(mf, i4) == l4_frame(m0, i4),
        l3_entry(m0, i4, i3) is Some ==> l3_frame(mf, i4, i3) == l3_frame(m0, i4, i3),
        l2_entry(m0, i4, i3, i2) is Some ==> l2_frame(mf, i4, i3, i2) == l2_frame(m0, i4, i3, i2),
{
    let e4f = PageTableEntry::Table { frame: f4, flags: fl4, node: n3f };
    let e3f = PageTableEntry::Table { frame: f3, flags: fl3, node: n2f };
    let e2f = PageTableEntry::Table { frame: f2, flags: fl2, node: n1f };
    let e1f = PageTableEntry::Mapped { frame: frame, flags: flags };
    assert(entry_wf(m0.entries[i4], 4));
    if !created4 {
        let o3 = n3a;
        assert(node_wf(o3, 3));
        assert(entry_wf(o3.entries[i3], 3));
    }
    if !created3 {
        assert(entry_wf(n2a.entries[i2], 2)) by {
            if created4 {
                assert(n3a.entries[i3] is Unused);
            }
        }
    }
    assert(n1f.entries@ =~= n1a.entries@.update(i1, e1f));
    assert(n2f.entries@ =~= n2a.entries@.update(i2, e2f));
    assert(n3f.entries@ =~= n3a.entries@.update(i3, e3f));
    assert(mf.entries@ =~= m0.entries@.update(i4, e4f));

    // well-formedness, from the leaf level up
    assert(node_wf(n1f, 1)) by {
        assert forall|j: int| 0 <= j < n1f.entries.len() implies entry_wf(
            #[trigger] n1f.entries[j],
            1,
        ) by {
            if j != i1 {
                if created2 {
                    assert(n1a.entries[j] is Unused);
                } else {
                    assert(entry_wf(n1a.entries[j], 1));
                }
            }
        }
    }
    assert(node_wf(n2f, 2)) by {
        assert forall|j: int| 0 <= j < n2f.entries.len() implies entry_wf(
            #[trigger] n2f.entries[j],
            2,
        ) by {
            if j != i2 {
                if created3 {
                    assert(n2a.entries[j] is Unused);
                } else {
                    assert(entry_wf(n2a.entries[j], 2));
                }
            }
        }
    }
    assert(node_wf(n3f, 3)) by {
        assert forall|j: int| 0 <= j < n3f.entries.len() implies entry_wf(
            #[trigger] n3f.entries[j],
            3,
        ) by {
            if j != i3 {
                if created4 {
                    assert(n3a.entries[j] is Unused);
                } else {
                    assert(entry_wf(n3a.entries[j], 3));
                }
            }
        }
    }
    assert(node_wf(mf, 4)) by {
        assert forall|j: int| 0 <= j < mf.entries.len() implies entry_wf(
            #[trigger] mf.entries[j],
            4,
        ) by {
            if j != i4 {
                assert(entry_wf(m0.entries[j], 4));
            }
        }
    }

    // untouched leaves elsewhere
    assert forall|j4: int, j3: int, j2: int, j1: int|
        0 <= j4 < 512 && 0 <= j3 < 512 && 0 <= j2 < 512 && 0 <= j1 < 512 && !(j4 == i4 && j3 == i3
            && j2 == i2 && j1 == i1) implies #[trigger] entry_at(mf, j4, j3, j2, j1) == entry_at(
        m0,
        j4,
        j3,
        j2,
        j1,
    ) by {
        if j4 == i4 {
            if created4 {
                assert(n3a.entries[j3] is Unused);
            }
            if j3 == i3 {
                if created3 {
                    assert(n2a.entries[j2] is Unused);
                }
                if j2 == i2 {
                    if created2 {
                        assert(n1a.entries[j1] is Unused);
                    }
                    assert(n1f.entries[j1] == n1a.entries[j1]);
                } else {
                    assert(n2f.entries[j2] == n2a.entries[j2]);
                }
            } else {
                assert(n3f.entries[j3] == n3a.entries[j3]);
            }
        } else {
            assert(mf.entries[j4] == m0.entries[j4]);
        }
    }
}


/// Unmaps `page`: walks the four levels and clears the leaf entry.
///
/// Unmapping a page that is not mapped — any entry along the path unused —
/// is refused as a protocol violation and changes nothing.  Intermediate
/// nodes are never pruned or freed, even when all their children become
/// unused.
pub fn unmap_virt(l4: &mut PageTableNode, page: Page) -> (r: Result<(), MapError>)
    requires
        node_wf(*old(l4), 4),
    ensures
        node_wf(*final(l4), 4),
        ({
            let i4 = spec_p4_index(page.spec_start()) as int;
            let i3 = spec_p3_index(page.spec_start()) as int;
            let i2 = spec_p2_index(page.spec_start()) as int;
            let i1 = spec_p1_index(page.spec_start()) as int;
            let depth = path_depth(*old(l4), i4, i3, i2, i1);
            match r {
                Ok(u) => {
                    &&& depth == 4
                    &&& entry_at(*final(l4), i4, i3, i2, i1) is None
                    &&& forall|j4: int, j3: int, j2: int, j1: int|
                        0 <= j4 < 512 && 0 <= j3 < 512 && 0 <= j2 < 512 && 0 <= j1 < 512 && !(j4
                            == i4 && j3 == i3 && j2 == i2 && j1 == i1) ==> #[trigger] entry_at(
                            *final(l4),
                            j4,
                            j3,
                            j2,
                            j1,
                        ) == entry_at(*old(l4), j4, j3, j2, j1)
                    &&& l4_entry(*final(l4), i4) == l4_entry(*old(l4), i4)
                    &&& l3_entry(*final(l4), i4, i3) == l3_entry(*old(l4), i4, i3)
                    &&& l2_entry(*final(l4), i4, i3, i2) == l2_entry(*old(l4), i4, i3, i2)
                    &&& l4_frame(*final(l4), i4) == l4_frame(*old(l4), i4)
                    &&& l3_frame(*final(l4), i4, i3) == l3_frame(*old(l4), i4, i3)
                    &&& l2_frame(*final(l4), i4, i3, i2) == l2_frame(*old(l4), i4, i3, i2)
                },
                Err(e) => {
                    &&& e == MapError::NotMapped
                    &&& depth < 4
                    &&& *final(l4) == *old(l4)
                },
            }
        }),
{
    let i4 = page.p4_index();
    let i3 = page.p3_index();
    let i2 = page.p2_index();
    let i1 = page.p1_index();
    let ghost m0 = *l4;
    let depth = walk_path_depth(l4, i4, i3, i2, i1);
    if depth != 4 {
        return Err(MapError::NotMapped);
    }
    proof {
        assert(entry_wf(m0.entries[i4 as int], 4));
    }
    let e4 = l4.entries.remove(i4);
    match e4 {
        PageTableEntry::Table { frame: f4, flags: fl4, node: mut n3 } => {
            proof {
                assert(entry_wf(n3.entries[i3 as int], 3));
            }
            let ghost n3a = n3;
            let e3 = n3.entries.remove(i3);
            match e3 {
                PageTableEntry::Table { frame: f3, flags: fl3, node: mut n2 } => {
                    proof {
                        assert(entry_wf(n2.entries[i2 as int], 2));
                    }
                    let ghost n2a = n2;
                    let e2 = n2.entries.remove(i2);
                    match e2 {
                        PageTableEntry::Table { frame: f2, flags: fl2, node: mut n1 } => {
                            let ghost n1a = n1;
                            let e1 = n1.entries.remove(i1);
                            n1.entries.insert(i1, PageTableEntry::Unused);
                            let ghost n1f = n1;
                            n2.entries.insert(
                                i2,
                                PageTableEntry::Table { frame: f2, flags: fl2, node: n1 },
                            );
                            let ghost n2f = n2;
                            n3.entries.insert(
                                i3,
                                PageTableEntry::Table { frame: f3, flags: fl3, node: n2 },
                            );
                            let ghost n3f = n3;
                            l4.entries.insert(
                                i4,
                                PageTableEntry::Table { frame: f4, flags: fl4, node: n3 },
                            );
                            proof {
                                lemma_unmap_virt_result(
                                    m0,
                                    *l4,
                                    n3a,
                                    n3f,
                                    n2a,
                                    n2f,
                                    n1a,
                                    n1f,
                                    i4 as int,
                                    i3 as int,
                                    i2 as int,
                                    i1 as int,
                                    f4,
                                    fl4,
                                    f3,
                                    fl3,
                                    f2,
                                    fl2,
                                );
                            }
                            Ok(())
                        },
                        _ => {
                            proof {
                                assert(false);
                            }
                            Err(MapError::NotMapped)
                        },
                    }
                },
                _ => {
                    proof {
                        assert(false);
                    }
                    Err(MapError::NotMapped)
                },
            }
        },
        _ => {
            proof {
                assert(false);
            }
            Err(MapError::NotMapped)
        },
    }
}

/// The shape of the tree after a successful unmap: well-formedness, a
/// cleared leaf, untouched leaves elsewhere, and untouched intermediate
/// entries.
#[verifier::rlimit(60)]
proof fn lemma_unmap_virt_result(
    m0: PageTableNode,
    mf: PageTableNode,
    n3a: PageTableNode,
    n3f: PageTableNode,
    n2a: PageTableNode,
    n2f: PageTableNode,
    n1a: PageTableNode,
    n1f: PageTableNode,
    i4: int,
    i3: int,
    i2: int,
    i1: int,
    f4: u64,
    fl4: PageTableFlags,
    f3: u64,
    fl3: PageTableFlags,
    f2: u64,
    fl2: PageTableFlags,
)
    requires
        node_wf(m0, 4),
        0 <= i4 < 512,
        0 <= i3 < 512,
        0 <= i2 < 512,
        0 <= i1 < 512,
        m0.entries[i4] == (PageTableEntry::Table { frame: f4, flags: fl4, node: n3a }),
        n3a.entries[i3] == (PageTableEntry::Table { frame: f3, flags: fl3, node: n2a }),
        n2a.entries[i2] == (PageTableEntry::Table { frame: f2, flags: fl2, node: n1a }),
        n1f.entries@ == n1a.entries@.remove(i1).insert(i1, PageTableEntry::Unused),
        n2f.entries@ == n2a.entries@.remove(i2).insert(
            i2,
            (PageTableEntry::Table { frame: f2, flags: fl2, node: n1f }),
        ),
        n3f.entries@ == n3a.entries@.remove(i3).insert(
            i3,
            (PageTableEntry::Table { frame: f3, flags: fl3, node: n2f }),
        ),
        mf.entries@ == m0.entries@.remove(i4).insert(
            i4,
            (PageTableEntry::Table { frame: f4, flags: fl4, node: n3f }),
        ),
    ensures
        node_wf(mf, 4),
        entry_at(mf, i4, i3, i2, i1) is None,
        forall|j4: int, j3: int, j2: int, j1: int|
            0 <= j4 < 512 && 0 <= j3 < 512 && 0 <= j2 < 512 && 0 <= j1 < 512 && !(j4 == i4 && j3
                == i3 && j2 == i2 && j1 == i1) ==> #[trigger] entry_at(mf, j4, j3, j2, j1)
                == entry_at(m0, j4, j3, j2, j1),
        l4_entry(mf, i4) == l4_entry(m0, i4),
        l3_entry(mf, i4, i3) == l3_entry(m0, i4, i3),
        l2_entry(mf, i4, i3, i2) == l2_entry(m0, i4, i3, i2),
        l4_frame(mf, i4) == l4_frame(m0, i4),
        l3_frame(mf, i4, i3) == l3_frame(m0, i4, i3),
        l2_frame(mf, i4, i3, i2) == l2_frame(m0, i4, i3, i2),
{
    let e4f = PageTableEntry::Table { frame: f4, flags: fl4, node: n3f };
    let e3f = PageTableEntry::Table { frame: f3, flags: fl3, node: n2f };
    let e2f = PageTableEntry::Table { frame: f2, flags: fl2, node: n1f };
    assert(entry_wf(m0.entries[i4], 4));
    assert(entry_wf(n3a.entries[i3], 3));
    assert(entry_wf(n2a.entries[i2], 2));
    assert(n1f.entries@ =~= n1a.entries@.update(i1, PageTableEntry::Unused));
    assert(n2f.entries@ =~= n2a.entries@.update(i2, e2f));
    assert(n3f.entries@ =~= n3a.entries@.update(i3, e3f));
    assert(mf.entries@ =~= m0.entries@.update(i4, e4f));

    assert(node_wf(n1f, 1)) by {
        assert forall|j: int| 0 <= j < n1f.entries.len() implies entry_wf(
            #[trigger] n1f.entries[j],
            1,
        ) by {
            if j != i1 {
                assert(entry_wf(n1a.entries[j], 1));
            }
        }
    }
    assert(node_wf(n2f, 2)) by {
        assert forall|j: int| 0 <= j < n2f.entries.len() implies entry_wf(
            #[trigger] n2f.entries[j],
            2,
        ) by {
            if j != i2 {
                assert(entry_wf(n2a.entries[j], 2));
            }
        }
    }
    assert(node_wf(n3f, 3)) by {
        assert forall|j: int| 0 <= j < n3f.entries.len() implies entry_wf(
            #[trigger] n3f.entries[j],
            3,
        ) by {
            if j != i3 {
                assert(entry_wf(n3a.entries[j], 3));
            }
        }
    }
    assert(node_wf(mf, 4)) by {
        assert forall|j: int| 0 <= j < mf.entries.len() implies entry_wf(
            #[trigger] mf.entries[j],
            4,
        ) by {
            if j != i4 {
                assert(entry_wf(m0.entries[j], 4));
            }
        }
    }

    assert forall|j4: int, j3: int, j2: int, j1: int|
        0 <= j4 < 512 && 0 <= j3 < 512 && 0 <= j2 < 512 && 0 <= j1 < 512 && !(j4 == i4 && j3 == i3
            && j2 == i2 && j1 == i1) implies #[trigger] entry_at(mf, j4, j3, j2, j1) == entry_at(
        m0,
        j4,
        j3,
        j2,
        j1,
    ) by {
        if j4 == i4 {
            if j3 == i3 {
                if j2 == i2 {
                    assert(n1f.entries[j1] == n1a.entries[j1]);
                } else {
                    assert(n2f.entries[j2] == n2a.entries[j2]);
                }
            } else {
                assert(n3f.entries[j3] == n3a.entries[j3]);
            }
        } else {
            assert(mf.entries[j4] == m0.entries[j4]);
        }
    }
}

/// Resolves a virtual address to a physical address by walking the four
/// levels read-only: the mapped frame's base plus the address's page
/// offset, or `None` when any entry along the path is unused.  Never
/// allocates or mutates.
pub fn virt2phys(l4: &PageTableNode, addr: u64) -> (r: Option<u64>)
    requires
        node_wf(*l4, 4),
    ensures
        r == spec_translate(*l4, addr),
        r matches Some(p) ==> (p & 0xfffu64) == (addr & 0xfffu64),
{
    let page = Page::containing_address(addr);
    let i4 = page.p4_index();
    let i3 = page.p3_index();
    let i2 = page.p2_index();
    let i1 = page.p1_index();
    proof {
        assert(entry_wf(l4.entries[i4 as int], 4));
    }
    match &l4.entries[i4] {
        PageTableEntry::Table { node: n3, .. } => {
            proof {
                assert(entry_wf(n3.entries[i3 as int], 3));
            }
            match &n3.entries[i3] {
                PageTableEntry::Table { node: n2, .. } => {
                    proof {
                        assert(entry_wf(n2.entries[i2 as int], 2));
                    }
                    match &n2.entries[i2] {
                        PageTableEntry::Table { node: n1, .. } => {
                            proof {
                                assert(entry_wf(n1.entries[i1 as int], 1));
                            }
                            match &n1.entries[i1] {
                                PageTableEntry::Mapped { frame, .. } => {
                                    let offset = addr % PAGE_SIZE;
                                    proof {
                                        lemma_frame_plus_offset(*frame, addr);
                                    }
                                    Some(*frame + offset)
                                },
                                _ => None,
                            }
                        },
                        _ => None,
                    }
                },
                _ => None,
            }
        },
        _ => None,
    }
}


/// A page is recorded in the tree exactly when its path is fully used.
///
/// Mapping an already-mapped page is a protocol violation: a page whose
/// leaf mapping is recorded has full path depth, which is exactly the
/// condition under which `map_virt` refuses the request as
/// `AlreadyMapped`.  Likewise a page with no recorded mapping has partial
/// path depth, which is exactly the condition under which `unmap_virt`
/// refuses the request as `NotMapped`.
pub proof fn lemma_mapping_protocol(root: PageTableNode, i4: int, i3: int, i2: int, i1: int)
    requires
        node_wf(root, 4),
        0 <= i4 < 512,
        0 <= i3 < 512,
        0 <= i2 < 512,
        0 <= i1 < 512,
    ensures
        entry_at(root, i4, i3, i2, i1) is Some <==> path_depth(root, i4, i3, i2, i1) == 4,
{
    assert(entry_wf(root.entries[i4], 4));
    match root.entries[i4] {
        PageTableEntry::Table { node: n3, .. } => {
            assert(entry_wf(n3.entries[i3], 3));
            match n3.entries[i3] {
                PageTableEntry::Table { node: n2, .. } => {
                    assert(entry_wf(n2.entries[i2], 2));
                    match n2.entries[i2] {
                        PageTableEntry::Table { node: n1, .. } => {
                            assert(entry_wf(n1.entries[i1], 1));
                        },
                        _ => {},
                    }
                },
                _ => {},
            }
        },
        _ => {},
    }
}

/// End-to-end mapping round trip: once a page is mapped to a frame, the
/// translator resolves every address of that page to the frame's base plus
/// the address's page offset, with no wraparound.  In particular an
/// identity-style mapping — a page mapped to the frame at the same
/// address — translates every one of its addresses to itself.
pub proof fn lemma_map_then_translate(root: PageTableNode, addr: u64, frame: u64, flags: PageTableFlags)
    requires
        entry_at(
            root,
            spec_p4_index(addr) as int,
            spec_p3_index(addr) as int,
            spec_p2_index(addr) as int,
            spec_p1_index(addr) as int,
        ) == Some((frame, flags)),
        frame % PAGE_SIZE == 0,
    ensures
        frame + spec_page_offset(addr) <= u64::MAX,
        spec_translate(root, addr) == Some((frame + spec_page_offset(addr)) as u64),
        frame == addr & 0xffff_ffff_f000u64 ==> spec_translate(root, addr) == Some(
            addr & 0xffff_ffff_ffffu64,
        ),
{
    assert(frame % 4096 == 0 ==> frame + (addr & 0xfff) <= u64::MAX) by (bit_vector);
    assert(frame == addr & 0xffff_ffff_f000u64 ==> ((frame + (addr & 0xfff)) as u64) == (addr
        & 0xffff_ffff_ffffu64)) by (bit_vector);
}


/// The four page-table indices of any virtual address lie below the node
/// fan-out.
pub proof fn lemma_page_indices_bounded(a: u64)
    ensures
        spec_p4_index(a) < 512,
        spec_p3_index(a) < 512,
        spec_p2_index(a) < 512,
        spec_p1_index(a) < 512,
{
    assert((a >> 39) & 0x1ff < 512 && (a >> 30) & 0x1ff < 512 && (a >> 21) & 0x1ff < 512 && (a
        >> 12) & 0x1ff < 512) by (bit_vector);
}

/// Masking an address to its page base keeps its four page-table indices,
/// aligns it to the page size, does not increase it, and lands below the
/// 48-bit addressing limit.
pub proof fn lemma_page_base(a: u64)
    ensures
        (a & 0xffff_ffff_f000u64) % PAGE_SIZE == 0,
        (a & 0xffff_ffff_f000u64) <= a,
        (a & 0xffff_ffff_f000u64) < 0x1_0000_0000_0000u64,
        spec_p4_index(a & 0xffff_ffff_f000u64) == spec_p4_index(a),
        spec_p3_index(a & 0xffff_ffff_f000u64) == spec_p3_index(a),
        spec_p2_index(a & 0xffff_ffff_f000u64) == spec_p2_index(a),
        spec_p1_index(a & 0xffff_ffff_f000u64) == spec_p1_index(a),
{
    assert((a & 0xffff_ffff_f000u64) % 4096 == 0 && (a & 0xffff_ffff_f000u64) <= a && (a
        & 0xffff_ffff_f000u64) < 0x1_0000_0000_0000u64 && ((a & 0xffff_ffff_f000u64) >> 39)
        & 0x1ff == (a >> 39) & 0x1ff && ((a & 0xffff_ffff_f000u64) >> 30) & 0x1ff == (a >> 30)
        & 0x1ff && ((a & 0xffff_ffff_f000u64) >> 21) & 0x1ff == (a >> 21) & 0x1ff && ((a
        & 0xffff_ffff_f000u64) >> 12) & 0x1ff == (a >> 12) & 0x1ff) by (bit_vector);
}

/// Page bases respect address order below the 48-bit addressing limit.
pub proof fn lemma_page_base_monotone(x: u64, y: u64)
    requires
        x <= y,
        y < 0x1_0000_0000_0000u64,
    ensures
        (x & 0xffff_ffff_f000u64) <= (y & 0xffff_ffff_f000u64),
{
    assert(x <= y && y < 0x1_0000_0000_0000u64 ==> (x & 0xffff_ffff_f000u64) <= (y
        & 0xffff_ffff_f000u64)) by (bit_vector);
}

/// A page-aligned address below the addressing limit is its own page base.
pub proof fn lemma_aligned_is_page_base(c: u64)
    requires
        c % PAGE_SIZE == 0,
        c < 0x1_0000_0000_0000u64,
    ensures
        (c & 0xffff_ffff_f000u64) == c,
{
    assert(c % 4096 == 0 && c < 0x1_0000_0000_0000u64 ==> (c & 0xffff_ffff_f000u64) == c)
        by (bit_vector);
}

/// Two distinct page-aligned addresses below the addressing limit differ in
/// at least one of their four page-table indices.
pub proof fn lemma_distinct_pages_distinct_indices(q: u64, c: u64)
    requires
        q % PAGE_SIZE == 0,
        c % PAGE_SIZE == 0,
        q != c,
        q < 0x1_0000_0000_0000u64,
        c < 0x1_0000_0000_0000u64,
    ensures
        !(spec_p4_index(q) == spec_p4_index(c) && spec_p3_index(q) == spec_p3_index(c)
            && spec_p2_index(q) == spec_p2_index(c) && spec_p1_index(q) == spec_p1_index(c)),
{
    assert(q % 4096 == 0 && c % 4096 == 0 && q != c && q < 0x1_0000_0000_0000u64 && c
        < 0x1_0000_0000_0000u64 ==> !((q >> 39) & 0x1ff == (c >> 39) & 0x1ff && (q >> 30) & 0x1ff
        == (c >> 30) & 0x1ff && (q >> 21) & 0x1ff == (c >> 21) & 0x1ff && (q >> 12) & 0x1ff == (c
        >> 12) & 0x1ff)) by (bit_vector);
}

/// A page holds exactly one page-aligned address.
pub proof fn lemma_one_base_per_page(q: u64, c: u64)
    requires
        q % PAGE_SIZE == 0,
        c % PAGE_SIZE == 0,
        c <= q < c + PAGE_SIZE,
    ensures
        q == c,
{
    assert(q % 4096 == 0 && c % 4096 == 0 && c <= q < c + 4096 ==> q == c) by (bit_vector);
}

/// Adding an in-page offset to a page-aligned frame neither overflows nor
/// disturbs the offset bits, and the offset is the address modulo the page
/// size.
pub proof fn lemma_frame_plus_offset(f: u64, addr: u64)
    requires
        f % PAGE_SIZE == 0,
    ensures
        f + (addr & 0xfffu64) <= u64::MAX,
        addr % PAGE_SIZE == (addr & 0xfffu64),
        ((f + (addr & 0xfffu64)) as u64) & 0xfffu64 == (addr & 0xfffu64),
{
    assert(f % 4096 == 0 ==> f + (addr & 0xfff) <= u64::MAX && addr % 4096 == (addr & 0xfff)
        && (((f + (addr & 0xfff)) as u64) & 0xfff) == (addr & 0xfff)) by (bit_vector);
}

/// Maps every page of the address range `[start_addr, start_addr + size)`
/// to fresh usable frames with the given flags.
///
/// Pages are mapped in address order.  Success is owed: when no page of
/// the range is mapped yet and the frame source holds four frames per
/// page, the call returns `Ok`.  On success every page of the range is
/// mapped with exactly the requested flags — to pairwise distinct frames
/// when the memory map is well formed — and every page outside the range
/// keeps exactly the mapping it had.  On failure — a page already mapped,
/// or the frame source exhausted — the error is passed on as the protocol
/// violation or exhaustion it is, and there is a failing page: the pages
/// before it are mapped with the requested flags, every other page is
/// untouched.
pub fn map_range(
    l4: &mut PageTableNode,
    frame_allocator: &mut FrameAllocator,
    start_addr: u64,
    size: u64,
    flags: PageTableFlags,
) -> (r: Result<(), MapError>)
    requires
        node_wf(*old(l4), 4),
        1 <= size,
        start_addr + size <= 0x1_0000_0000_0000u64,
        old(frame_allocator).cursor() + 4 <= u64::MAX,
        old(frame_allocator).frames().len() + 4 <= u64::MAX,
    ensures
        node_wf(*final(l4), 4),
        final(frame_allocator).frames() == old(frame_allocator).frames(),
        final(frame_allocator).map_wf() == old(frame_allocator).map_wf(),
        ({
            let first_page = start_addr & 0xffff_ffff_f000u64;
            let last_page = ((start_addr + (size - 1)) as u64) & 0xffff_ffff_f000u64;
            let page_count = ((last_page - first_page) / (PAGE_SIZE as int)) + 1;
            let c0 = old(frame_allocator).cursor() as int;
            &&& ((forall|q: u64|
                first_page <= q <= last_page && q % PAGE_SIZE == 0 ==> (#[trigger] entry_at(
                    *old(l4),
                    spec_p4_index(q) as int,
                    spec_p3_index(q) as int,
                    spec_p2_index(q) as int,
                    spec_p1_index(q) as int,
                )) is None) && c0 + 4 * page_count <= old(frame_allocator).frames().len()
                ==> r is Ok)
            &&& (r is Ok ==> forall|a: u64|
                start_addr <= a < start_addr + size ==> (#[trigger] spec_translate(
                    *final(l4),
                    a,
                )) is Some)
            &&& (r is Ok ==> forall|q: u64|
                first_page <= q <= last_page && q % PAGE_SIZE == 0 ==> ((#[trigger] entry_at(
                    *final(l4),
                    spec_p4_index(q) as int,
                    spec_p3_index(q) as int,
                    spec_p2_index(q) as int,
                    spec_p1_index(q) as int,
                )) matches Some(p) && p.1 == flags))
            &&& (r is Ok && old(frame_allocator).map_wf() ==> forall|q1: u64, q2: u64|
                first_page <= q1 <= last_page && q1 % PAGE_SIZE == 0 && first_page <= q2
                    <= last_page && q2 % PAGE_SIZE == 0 && q1 != q2 ==> #[trigger] leaf_frame(
                    *final(l4),
                    spec_p4_index(q1) as int,
                    spec_p3_index(q1) as int,
                    spec_p2_index(q1) as int,
                    spec_p1_index(q1) as int,
                ) != #[trigger] leaf_frame(
                    *final(l4),
                    spec_p4_index(q2) as int,
                    spec_p3_index(q2) as int,
                    spec_p2_index(q2) as int,
                    spec_p1_index(q2) as int,
                ))
            &&& (r is Ok ==> forall|a: u64|
                a < 0x1_0000_0000_0000u64 && ((a & 0xffff_ffff_f000u64) < first_page || (a
                    & 0xffff_ffff_f000u64) > last_page) ==> (#[trigger] spec_translate(
                    *final(l4),
                    a,
                )) == spec_translate(*old(l4), a))
            &&& (r matches Err(e) ==> {
                &&& (e == MapError::AlreadyMapped || e == MapError::FrameExhausted)
                &&& exists|qf: u64|
                    #![trigger spec_p4_index(qf)]
                    {
                        &&& first_page <= qf <= last_page
                        &&& qf % PAGE_SIZE == 0
                        &&& (e == MapError::AlreadyMapped ==> entry_at(
                            *old(l4),
                            spec_p4_index(qf) as int,
                            spec_p3_index(qf) as int,
                            spec_p2_index(qf) as int,
                            spec_p1_index(qf) as int,
                        ) is Some)
                        &&& (forall|q: u64|
                            first_page <= q < qf && q % PAGE_SIZE == 0 ==> ((
                            #[trigger] entry_at(
                                *final(l4),
                                spec_p4_index(q) as int,
                                spec_p3_index(q) as int,
                                spec_p2_index(q) as int,
                                spec_p1_index(q) as int,
                            )) matches Some(p) && p.1 == flags))
                        &&& (forall|q: u64|
                            q % PAGE_SIZE == 0 && q < 0x1_0000_0000_0000u64 && !(first_page <= q
                                < qf) ==> (#[trigger] entry_at(
                                *final(l4),
                                spec_p4_index(q) as int,
                                spec_p3_index(q) as int,
                                spec_p2_index(q) as int,
                                spec_p1_index(q) as int,
                            )) == entry_at(
                                *old(l4),
                                spec_p4_index(q) as int,
                                spec_p3_index(q) as int,
                                spec_p2_index(q) as int,
                                spec_p1_index(q) as int,
                            ))
                    }
            })
        }),
{
    let first_page = start_addr & 0xffff_ffff_f000u64;
    let last_page = (start_addr + (size - 1)) & 0xffff_ffff_f000u64;
    proof {
        lemma_page_base(start_addr);
        lemma_page_base((start_addr + (size - 1)) as u64);
        lemma_page_base_monotone(start_addr, (start_addr + (size - 1)) as u64);
    }
    let ghost tree_init = *l4;
    let ghost wf0 = frame_allocator.map_wf();
    let mut cur = first_page;
    let ghost c_init = frame_allocator.cursor();
    let ghost fs0 = frame_allocator.frames();
    let ghost mut pages_done: int = 0;
    #[verifier::loop_isolation(false)]
    while cur <= last_page
        invariant
            node_wf(*l4, 4),
            frame_allocator.frames() == fs0,
            frame_allocator.map_wf() == wf0,
            frame_allocator.cursor() == c_init || frame_allocator.cursor() <= fs0.len(),
            c_init + 4 <= u64::MAX,
            fs0.len() + 4 <= u64::MAX,
            first_page <= cur,
            cur % PAGE_SIZE == 0,
            last_page % PAGE_SIZE == 0,
            last_page < 0x1_0000_0000_0000u64,
            cur <= last_page + PAGE_SIZE,
            0 <= pages_done,
            cur == first_page + pages_done * PAGE_SIZE,
            frame_allocator.cursor() <= c_init + 4 * pages_done,
            forall|q: u64|
                first_page <= q < cur && q % PAGE_SIZE == 0 ==> ((#[trigger] entry_at(
                    *l4,
                    spec_p4_index(q) as int,
                    spec_p3_index(q) as int,
                    spec_p2_index(q) as int,
                    spec_p1_index(q) as int,
                )) matches Some(p) && p.1 == flags),
            wf0 ==> forall|q: u64|
                first_page <= q < cur && q % PAGE_SIZE == 0 ==> ((#[trigger] leaf_frame(
                    *l4,
                    spec_p4_index(q) as int,
                    spec_p3_index(q) as int,
                    spec_p2_index(q) as int,
                    spec_p1_index(q) as int,
                )) matches Some(f) && (frame_allocator.cursor() < fs0.len() ==> f < fs0[
                    frame_allocator.cursor() as int
                ])),
            wf0 ==> forall|q1: u64, q2: u64|
                first_page <= q1 < cur && q1 % PAGE_SIZE == 0 && first_page <= q2 < cur && q2
                    % PAGE_SIZE == 0 && q1 != q2 ==> #[trigger] leaf_frame(
                    *l4,
                    spec_p4_index(q1) as int,
                    spec_p3_index(q1) as int,
                    spec_p2_index(q1) as int,
                    spec_p1_index(q1) as int,
                ) != #[trigger] leaf_frame(
                    *l4,
                    spec_p4_index(q2) as int,
                    spec_p3_index(q2) as int,
                    spec_p2_index(q2) as int,
                    spec_p1_index(q2) as int,
                ),
            forall|q: u64|
                q % PAGE_SIZE == 0 && q < 0x1_0000_0000_0000u64 && !(first_page <= q < cur)
                    ==> (#[trigger] entry_at(
                    *l4,
                    spec_p4_index(q) as int,
                    spec_p3_index(q) as int,
                    spec_p2_index(q) as int,
                    spec_p1_index(q) as int,
                )) == entry_at(
                    tree_init,
                    spec_p4_index(q) as int,
                    spec_p3_index(q) as int,
                    spec_p2_index(q) as int,
                    spec_p1_index(q) as int,
                ),
        decreases last_page + PAGE_SIZE - cur,
    {
        let ghost tree0 = *l4;
        let ghost c_call = frame_allocator.cursor() as int;
        let page = Page::containing_address(cur);
        proof {
            lemma_aligned_is_page_base(cur);
        }
        let result = map_virt(l4, page, flags, frame_allocator);
        match result {
            Ok(_) => {},
            Err(e) => {
                proof {
                    lemma_map_range_failure(
                        tree_init,
                        *l4,
                        e,
                        first_page,
                        last_page,
                        cur,
                        flags,
                        pages_done,
                        c_init as int,
                        c_call,
                        fs0.len() as int,
                    );
                }
                return Err(e);
            },
        }
        proof {
            let ghost c_new = frame_allocator.cursor() as int;
            assert forall|q: u64|
                first_page <= q < cur + PAGE_SIZE && q % PAGE_SIZE == 0 implies ((
            #[trigger] entry_at(
                *l4,
                spec_p4_index(q) as int,
                spec_p3_index(q) as int,
                spec_p2_index(q) as int,
                spec_p1_index(q) as int,
            )) matches Some(p) && p.1 == flags) by {
                let c = cur;
                if q < cur {
                    lemma_page_indices_bounded(q);
                    lemma_page_indices_bounded(c);
                    lemma_distinct_pages_distinct_indices(q, c);
                    assert(entry_at(
                        *l4,
                        spec_p4_index(q) as int,
                        spec_p3_index(q) as int,
                        spec_p2_index(q) as int,
                        spec_p1_index(q) as int,
                    ) == entry_at(
                        tree0,
                        spec_p4_index(q) as int,
                        spec_p3_index(q) as int,
                        spec_p2_index(q) as int,
                        spec_p1_index(q) as int,
                    ));
                } else {
                    lemma_one_base_per_page(q, c);
                }
            }
            if wf0 {
                assert forall|q: u64|
                    first_page <= q < cur + PAGE_SIZE && q % PAGE_SIZE == 0 implies ((
                #[trigger] leaf_frame(
                    *l4,
                    spec_p4_index(q) as int,
                    spec_p3_index(q) as int,
                    spec_p2_index(q) as int,
                    spec_p1_index(q) as int,
                )) matches Some(f) && (c_new < fs0.len() ==> f < fs0[c_new])) by {
                    let c = cur;
                    if q < cur {
                        lemma_page_indices_bounded(q);
                        lemma_page_indices_bounded(c);
                        lemma_distinct_pages_distinct_indices(q, c);
                        assert(leaf_frame(
                            *l4,
                            spec_p4_index(q) as int,
                            spec_p3_index(q) as int,
                            spec_p2_index(q) as int,
                            spec_p1_index(q) as int,
                        ) == leaf_frame(
                            tree0,
                            spec_p4_index(q) as int,
                            spec_p3_index(q) as int,
                            spec_p2_index(q) as int,
                            spec_p1_index(q) as int,
                        ));
                        if c_new < fs0.len() {
                            lemma_frames_ordered(frame_allocator, c_call, c_new);
                        }
                    } else {
                        lemma_one_base_per_page(q, c);
                        if c_new < fs0.len() {
                            lemma_frames_ordered(frame_allocator, c_call, c_new);
                        }
                    }
                }
                assert forall|q1: u64, q2: u64|
                    first_page <= q1 < cur + PAGE_SIZE && q1 % PAGE_SIZE == 0 && first_page <= q2
                        < cur + PAGE_SIZE && q2 % PAGE_SIZE == 0 && q1
                        != q2 implies #[trigger] leaf_frame(
                    *l4,
                    spec_p4_index(q1) as int,
                    spec_p3_index(q1) as int,
                    spec_p2_index(q1) as int,
                    spec_p1_index(q1) as int,
                ) != #[trigger] leaf_frame(
                    *l4,
                    spec_p4_index(q2) as int,
                    spec_p3_index(q2) as int,
                    spec_p2_index(q2) as int,
                    spec_p1_index(q2) as int,
                ) by {
                    let c = cur;
                    lemma_page_indices_bounded(c);
                    // a page mapped earlier keeps its leaf, whose frame lies
                    // below the fresh frame of the page just mapped
                    if q1 < cur {
                        lemma_page_indices_bounded(q1);
                        lemma_distinct_pages_distinct_indices(q1, c);
                        assert(leaf_frame(
                            *l4,
                            spec_p4_index(q1) as int,
                            spec_p3_index(q1) as int,
                            spec_p2_index(q1) as int,
                            spec_p1_index(q1) as int,
                        ) == leaf_frame(
                            tree0,
                            spec_p4_index(q1) as int,
                            spec_p3_index(q1) as int,
                            spec_p2_index(q1) as int,
                            spec_p1_index(q1) as int,
                        ));
                    } else {
                        lemma_one_base_per_page(q1, c);
                    }
                    if q2 < cur {
                        lemma_page_indices_bounded(q2);
                        lemma_distinct_pages_distinct_indices(q2, c);
                        assert(leaf_frame(
                            *l4,
                            spec_p4_index(q2) as int,
                            spec_p3_index(q2) as int,
                            spec_p2_index(q2) as int,
                            spec_p1_index(q2) as int,
                        ) == leaf_frame(
                            tree0,
                            spec_p4_index(q2) as int,
                            spec_p3_index(q2) as int,
                            spec_p2_index(q2) as int,
                            spec_p1_index(q2) as int,
                        ));
                    } else {
                        lemma_one_base_per_page(q2, c);
                    }
                }
            }
            assert forall|q: u64|
                q % PAGE_SIZE == 0 && q < 0x1_0000_0000_0000u64 && !(first_page <= q < cur
                    + PAGE_SIZE) implies (#[trigger] entry_at(
                *l4,
                spec_p4_index(q) as int,
                spec_p3_index(q) as int,
                spec_p2_index(q) as int,
                spec_p1_index(q) as int,
            )) == entry_at(
                tree_init,
                spec_p4_index(q) as int,
                spec_p3_index(q) as int,
                spec_p2_index(q) as int,
                spec_p1_index(q) as int,
            ) by {
                let c = cur;
                lemma_page_indices_bounded(q);
                lemma_page_indices_bounded(c);
                lemma_distinct_pages_distinct_indices(q, c);
                assert(entry_at(
                    *l4,
                    spec_p4_index(q) as int,
                    spec_p3_index(q) as int,
                    spec_p2_index(q) as int,
                    spec_p1_index(q) as int,
                ) == entry_at(
                    tree0,
                    spec_p4_index(q) as int,
                    spec_p3_index(q) as int,
                    spec_p2_index(q) as int,
                    spec_p1_index(q) as int,
                ));
            }
            pages_done = pages_done + 1;
        }
        cur = cur + PAGE_SIZE;
    }
    proof {
        assert forall|a: u64|
            a < 0x1_0000_0000_0000u64 && ((a & 0xffff_ffff_f000u64) < first_page || (a
                & 0xffff_ffff_f000u64) > last_page) implies (#[trigger] spec_translate(*l4, a))
            == spec_translate(tree_init, a) by {
            let q = a & 0xffff_ffff_f000u64;
            lemma_page_indices_bounded(q);
            lemma_page_base(a);
            assert(entry_at(
                *l4,
                spec_p4_index(q) as int,
                spec_p3_index(q) as int,
                spec_p2_index(q) as int,
                spec_p1_index(q) as int,
            ) == entry_at(
                tree_init,
                spec_p4_index(q) as int,
                spec_p3_index(q) as int,
                spec_p2_index(q) as int,
                spec_p1_index(q) as int,
            ));
        }
        assert forall|a: u64| start_addr <= a < start_addr + size implies (#[trigger] spec_translate(
            *l4,
            a,
        )) is Some by {
            let q = a & 0xffff_ffff_f000u64;
            lemma_page_indices_bounded(q);
            lemma_page_base(a);
            lemma_page_base_monotone(start_addr, a);
            lemma_page_base_monotone(a, (start_addr + (size - 1)) as u64);
            assert(entry_at(
                *l4,
                spec_p4_index(q) as int,
                spec_p3_index(q) as int,
                spec_p2_index(q) as int,
                spec_p1_index(q) as int,
            ) matches Some(p));
        }
    }
    Ok(())
}

/// At a failed step of a range mapping, the partial-progress and
/// success-owed facts of the range contract: the loop invariants describe
/// the unchanged tree, the failing page's old state explains the error,
/// and a fully unmapped range with enough frames rules the failure out.
#[verifier::rlimit(60)]
proof fn lemma_map_range_failure(
    tree_init: PageTableNode,
    tree: PageTableNode,
    e: MapError,
    first_page: u64,
    last_page: u64,
    cur: u64,
    flags: PageTableFlags,
    pages_done: int,
    c_init: int,
    c_call: int,
    frames_len: int,
)
    requires
        node_wf(tree, 4),
        first_page <= cur <= last_page,
        first_page % PAGE_SIZE == 0,
        cur % PAGE_SIZE == 0,
        last_page % PAGE_SIZE == 0,
        last_page < 0x1_0000_0000_0000u64,
        0 <= pages_done,
        cur == first_page + pages_done * PAGE_SIZE,
        c_call <= c_init + 4 * pages_done,
        e == MapError::AlreadyMapped || e == MapError::FrameExhausted,
        e == MapError::AlreadyMapped ==> path_depth(
            tree,
            spec_p4_index(cur) as int,
            spec_p3_index(cur) as int,
            spec_p2_index(cur) as int,
            spec_p1_index(cur) as int,
        ) == 4,
        e == MapError::FrameExhausted ==> c_call + 4 > frames_len,
        forall|q: u64|
            first_page <= q < cur && q % PAGE_SIZE == 0 ==> ((#[trigger] entry_at(
                tree,
                spec_p4_index(q) as int,
                spec_p3_index(q) as int,
                spec_p2_index(q) as int,
                spec_p1_index(q) as int,
            )) matches Some(p) && p.1 == flags),
        forall|q: u64|
            q % PAGE_SIZE == 0 && q < 0x1_0000_0000_0000u64 && !(first_page <= q < cur) ==> (
            #[trigger] entry_at(
                tree,
                spec_p4_index(q) as int,
                spec_p3_index(q) as int,
                spec_p2_index(q) as int,
                spec_p1_index(q) as int,
            )) == entry_at(
                tree_init,
                spec_p4_index(q) as int,
                spec_p3_index(q) as int,
                spec_p2_index(q) as int,
                spec_p1_index(q) as int,
            ),
    ensures
        !((forall|q: u64|
            first_page <= q <= last_page && q % PAGE_SIZE == 0 ==> (#[trigger] entry_at(
                tree_init,
                spec_p4_index(q) as int,
                spec_p3_index(q) as int,
                spec_p2_index(q) as int,
                spec_p1_index(q) as int,
            )) is None) && c_init + 4 * (((last_page - first_page) / (PAGE_SIZE as int)) + 1)
            <= frames_len),
        exists|qf: u64|
            #![trigger spec_p4_index(qf)]
            {
                &&& first_page <= qf <= last_page
                &&& qf % PAGE_SIZE == 0
                &&& (e == MapError::AlreadyMapped ==> entry_at(
                    tree_init,
                    spec_p4_index(qf) as int,
                    spec_p3_index(qf) as int,
                    spec_p2_index(qf) as int,
                    spec_p1_index(qf) as int,
                ) is Some)
                &&& (forall|q: u64|
                    first_page <= q < qf && q % PAGE_SIZE == 0 ==> ((#[trigger] entry_at(
                        tree,
                        spec_p4_index(q) as int,
                        spec_p3_index(q) as int,
                        spec_p2_index(q) as int,
                        spec_p1_index(q) as int,
                    )) matches Some(p) && p.1 == flags))
                &&& (forall|q: u64|
                    q % PAGE_SIZE == 0 && q < 0x1_0000_0000_0000u64 && !(first_page <= q < qf)
                        ==> (#[trigger] entry_at(
                        tree,
                        spec_p4_index(q) as int,
                        spec_p3_index(q) as int,
                        spec_p2_index(q) as int,
                        spec_p1_index(q) as int,
                    )) == entry_at(
                        tree_init,
                        spec_p4_index(q) as int,
                        spec_p3_index(q) as int,
                        spec_p2_index(q) as int,
                        spec_p1_index(q) as int,
                    ))
            },
{
    lemma_page_indices_bounded(cur);
    // the failing page is the current one
    if e == MapError::AlreadyMapped {
        lemma_mapping_protocol(
            tree,
            spec_p4_index(cur) as int,
            spec_p3_index(cur) as int,
            spec_p2_index(cur) as int,
            spec_p1_index(cur) as int,
        );
        assert(entry_at(
            tree,
            spec_p4_index(cur) as int,
            spec_p3_index(cur) as int,
            spec_p2_index(cur) as int,
            spec_p1_index(cur) as int,
        ) is Some);
        assert(entry_at(
            tree_init,
            spec_p4_index(cur) as int,
            spec_p3_index(cur) as int,
            spec_p2_index(cur) as int,
            spec_p1_index(cur) as int,
        ) is Some);
    } else {
        // not enough frames at this step rules the headroom hypothesis out
        let d = last_page - first_page;
        vstd::arithmetic::div_mod::lemma_fundamental_div_mod(d, PAGE_SIZE as int);
        vstd::arithmetic::div_mod::lemma_mod_division_less_than_divisor(d, PAGE_SIZE as int);
        assert(pages_done <= d / (PAGE_SIZE as int)) by (nonlinear_arith)
            requires
                pages_done * (PAGE_SIZE as int) <= d,
                d == (PAGE_SIZE as int) * (d / (PAGE_SIZE as int)) + d % (PAGE_SIZE as int),
                0 <= d % (PAGE_SIZE as int) < (PAGE_SIZE as int),
                0 <= pages_done,
        ;
    }
}

/// Unmaps every page of the address range `[start_addr, start_addr +
/// size)`.
///
/// Success is owed: when every page of the range is mapped, the call
/// returns `Ok`.  On success no address of the range translates any
/// longer, and every page outside the range keeps exactly the mapping it
/// had.  Unmapping a page of the range that is not mapped is passed on as
/// the protocol violation it is, and there is a failing page: it was not
/// mapped, the pages before it are unmapped, every other page is
/// untouched.
pub fn unmap_range(l4: &mut PageTableNode, start_addr: u64, size: u64) -> (r: Result<
    (),
    MapError,
>)
    requires
        node_wf(*old(l4), 4),
        1 <= size,
        start_addr + size <= 0x1_0000_0000_0000u64,
    ensures
        node_wf(*final(l4), 4),
        ({
            let first_page = start_addr & 0xffff_ffff_f000u64;
            let last_page = ((start_addr + (size - 1)) as u64) & 0xffff_ffff_f000u64;
            (forall|q: u64|
                first_page <= q <= last_page && q % PAGE_SIZE == 0 ==> (#[trigger] entry_at(
                    *old(l4),
                    spec_p4_index(q) as int,
                    spec_p3_index(q) as int,
                    spec_p2_index(q) as int,
                    spec_p1_index(q) as int,
                )) is Some) ==> r is Ok
        }),
        r is Ok ==> forall|a: u64|
            start_addr <= a < start_addr + size ==> (#[trigger] spec_translate(*final(l4), a))
                is None,
        r is Ok ==> forall|a: u64|
            a < 0x1_0000_0000_0000u64 && ((a & 0xffff_ffff_f000u64) < (start_addr
                & 0xffff_ffff_f000u64) || (a & 0xffff_ffff_f000u64) > (((start_addr + size
                - 1) as u64) & 0xffff_ffff_f000u64)) ==> (#[trigger] spec_translate(
                *final(l4),
                a,
            )) == spec_translate(*old(l4), a),
        r matches Err(e) ==> ({
            let first_page = start_addr & 0xffff_ffff_f000u64;
            let last_page = ((start_addr + (size - 1)) as u64) & 0xffff_ffff_f000u64;
            &&& e == MapError::NotMapped
            &&& exists|qf: u64|
                #![trigger spec_p4_index(qf)]
                {
                    &&& first_page <= qf <= last_page
                    &&& qf % PAGE_SIZE == 0
                    &&& entry_at(
                        *old(l4),
                        spec_p4_index(qf) as int,
                        spec_p3_index(qf) as int,
                        spec_p2_index(qf) as int,
                        spec_p1_index(qf) as int,
                    ) is None
                    &&& (forall|q: u64|
                        first_page <= q < qf && q % PAGE_SIZE == 0 ==> (#[trigger] entry_at(
                            *final(l4),
                            spec_p4_index(q) as int,
                            spec_p3_index(q) as int,
                            spec_p2_index(q) as int,
                            spec_p1_index(q) as int,
                        )) is None)
                    &&& (forall|q: u64|
                        q % PAGE_SIZE == 0 && q < 0x1_0000_0000_0000u64 && !(first_page <= q < qf)
                            ==> (#[trigger] entry_at(
                            *final(l4),
                            spec_p4_index(q) as int,
                            spec_p3_index(q) as int,
                            spec_p2_index(q) as int,
                            spec_p1_index(q) as int,
                        )) == entry_at(
                            *old(l4),
                            spec_p4_index(q) as int,
                            spec_p3_index(q) as int,
                            spec_p2_index(q) as int,
                            spec_p1_index(q) as int,
                        ))
                }
        }),
{
    let first_page = start_addr & 0xffff_ffff_f000u64;
    let last_page = (start_addr + (size - 1)) & 0xffff_ffff_f000u64;
    proof {
        lemma_page_base(start_addr);
        lemma_page_base((start_addr + (size - 1)) as u64);
        lemma_page_base_monotone(start_addr, (start_addr + (size - 1)) as u64);
    }
    let ghost tree_init = *l4;
    let mut cur = first_page;
    #[verifier::loop_isolation(false)]
    while cur <= last_page
        invariant
            node_wf(*l4, 4),
            first_page <= cur,
            cur % PAGE_SIZE == 0,
            last_page % PAGE_SIZE == 0,
            last_page < 0x1_0000_0000_0000u64,
            cur <= last_page + PAGE_SIZE,
            forall|q: u64|
                first_page <= q < cur && q % PAGE_SIZE == 0 ==> (#[trigger] entry_at(
                    *l4,
                    spec_p4_index(q) as int,
                    spec_p3_index(q) as int,
                    spec_p2_index(q) as int,
                    spec_p1_index(q) as int,
                )) is None,
            forall|q: u64|
                q % PAGE_SIZE == 0 && q < 0x1_0000_0000_0000u64 && !(first_page <= q < cur)
                    ==> (#[trigger] entry_at(
                    *l4,
                    spec_p4_index(q) as int,
                    spec_p3_index(q) as int,
                    spec_p2_index(q) as int,
                    spec_p1_index(q) as int,
                )) == entry_at(
                    tree_init,
                    spec_p4_index(q) as int,
                    spec_p3_index(q) as int,
                    spec_p2_index(q) as int,
                    spec_p1_index(q) as int,
                ),
        decreases last_page + PAGE_SIZE - cur,
    {
        let ghost tree0 = *l4;
        let page = Page::containing_address(cur);
        proof {
            lemma_aligned_is_page_base(cur);
        }
        let result = unmap_virt(l4, page);
        match result {
            Ok(_) => {},
            Err(e) => {
                proof {
                    lemma_page_indices_bounded(cur);
                    lemma_mapping_protocol(
                        *l4,
                        spec_p4_index(cur) as int,
                        spec_p3_index(cur) as int,
                        spec_p2_index(cur) as int,
                        spec_p1_index(cur) as int,
                    );
                    assert(entry_at(
                        *l4,
                        spec_p4_index(cur) as int,
                        spec_p3_index(cur) as int,
                        spec_p2_index(cur) as int,
                        spec_p1_index(cur) as int,
                    ) is None);
                    assert(entry_at(
                        tree_init,
                        spec_p4_index(cur) as int,
                        spec_p3_index(cur) as int,
                        spec_p2_index(cur) as int,
                        spec_p1_index(cur) as int,
                    ) is None);
                }
                return Err(e);
            },
        }
        proof {
            assert forall|q: u64|
                first_page <= q < cur + PAGE_SIZE && q % PAGE_SIZE == 0 implies (#[trigger] entry_at(
                *l4,
                spec_p4_index(q) as int,
                spec_p3_index(q) as int,
                spec_p2_index(q) as int,
                spec_p1_index(q) as int,
            )) is None by {
                let c = cur;
                if q < cur {
                    lemma_page_indices_bounded(q);
                    lemma_page_indices_bounded(c);
                    lemma_distinct_pages_distinct_indices(q, c);
                    assert(entry_at(
                        tree0,
                        spec_p4_index(q) as int,
                        spec_p3_index(q) as int,
                        spec_p2_index(q) as int,
                        spec_p1_index(q) as int,
                    ) is None);
                    assert(entry_at(
                        *l4,
                        spec_p4_index(q) as int,
                        spec_p3_index(q) as int,
                        spec_p2_index(q) as int,
                        spec_p1_index(q) as int,
                    ) == entry_at(
                        tree0,
                        spec_p4_index(q) as int,
                        spec_p3_index(q) as int,
                        spec_p2_index(q) as int,
                        spec_p1_index(q) as int,
                    ));
                } else {
                    lemma_one_base_per_page(q, c);
                }
            }
            assert forall|q: u64|
                q % PAGE_SIZE == 0 && q < 0x1_0000_0000_0000u64 && !(first_page <= q < cur
                    + PAGE_SIZE) implies (#[trigger] entry_at(
                *l4,
                spec_p4_index(q) as int,
                spec_p3_index(q) as int,
                spec_p2_index(q) as int,
                spec_p1_index(q) as int,
            )) == entry_at(
                tree_init,
                spec_p4_index(q) as int,
                spec_p3_index(q) as int,
                spec_p2_index(q) as int,
                spec_p1_index(q) as int,
            ) by {
                let c = cur;
                lemma_page_indices_bounded(q);
                lemma_page_indices_bounded(c);
                lemma_distinct_pages_distinct_indices(q, c);
                assert(entry_at(
                    *l4,
                    spec_p4_index(q) as int,
                    spec_p3_index(q) as int,
                    spec_p2_index(q) as int,
                    spec_p1_index(q) as int,
                ) == entry_at(
                    tree0,
                    spec_p4_index(q) as int,
                    spec_p3_index(q) as int,
                    spec_p2_index(q) as int,
                    spec_p1_index(q) as int,
                ));
            }
        }
        cur = cur + PAGE_SIZE;
    }
    proof {
        assert forall|a: u64|
            a < 0x1_0000_0000_0000u64 && ((a & 0xffff_ffff_f000u64) < first_page || (a
                & 0xffff_ffff_f000u64) > last_page) implies (#[trigger] spec_translate(*l4, a))
            == spec_translate(tree_init, a) by {
            let q = a & 0xffff_ffff_f000u64;
            lemma_page_indices_bounded(q);
            lemma_page_base(a);
            assert(entry_at(
                *l4,
                spec_p4_index(q) as int,
                spec_p3_index(q) as int,
                spec_p2_index(q) as int,
                spec_p1_index(q) as int,
            ) == entry_at(
                tree_init,
                spec_p4_index(q) as int,
                spec_p3_index(q) as int,
                spec_p2_index(q) as int,
                spec_p1_index(q) as int,
            ));
        }
        assert forall|a: u64| start_addr <= a < start_addr + size implies (#[trigger] spec_translate(
            *l4,
            a,
        )) is None by {
            let q = a & 0xffff_ffff_f000u64;
            lemma_page_indices_bounded(q);
            lemma_page_base(a);
            lemma_page_base_monotone(start_addr, a);
            lemma_page_base_monotone(a, (start_addr + (size - 1)) as u64);
            assert(entry_at(
                *l4,
                spec_p4_index(q) as int,
                spec_p3_index(q) as int,
                spec_p2_index(q) as int,
                spec_p1_index(q) as int,
            ) is None);
        }
    }
    Ok(())
}

} // verus!
