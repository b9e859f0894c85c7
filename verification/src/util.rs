//! Shared utility structures.
//!
//! The circular FIFO queue that carries decoded keyboard bytes from the
//! interrupt handler to readers.  In the kernel two such queues are shared
//! between execution contexts behind locks and synchronized in one
//! direction; here each queue is an owned value, and `sync` states exactly
//! which slots it copies.

use vstd::prelude::*;

verus! {

/// Number of slots of the queue; one slot is always left empty, so the
/// queue holds at most one less.
pub const CONCURRENT_DEQUE_SIZE: usize = 512;

/// Failure of a queue operation.
#[derive(Debug, Clone, Copy, PartialEq, Eq, Structural)]
pub enum DequeError {
    /// The queue is full.
    Full,
}

/// The ring position `k` steps forward from `from`, wrapping at the queue
/// size.
pub open spec fn ring_step(from: int, k: int) -> int {
    (from + k) % (CONCURRENT_DEQUE_SIZE as int)
}

/// A position `p` lies in the ring interval that starts at `from` and runs
/// forward to just before `to`, wrapping at the queue size.
pub open spec fn ring_between(from: int, to: int, p: int) -> bool {
    if from <= to {
        from <= p < to
    } else {
        from <= p < CONCURRENT_DEQUE_SIZE || 0 <= p < to
    }
}

/// Circular FIFO queue: pushing appends at the end, popping removes from
/// the start (or, for `pop_end`, from the end).
pub struct ConcurrentDeque<T> {
    /// The slots of the ring.
    items: Vec<T>,
    /// Slot of the oldest element.
    start: usize,
    /// Slot past the newest element.
    end: usize,
}

impl<T: Copy> ConcurrentDeque<T> {
    /// The slots of the ring.
    pub closed spec fn spec_items(&self) -> Seq<T> {
        self.items@
    }

    /// Slot of the oldest element.
    pub closed spec fn spec_start(&self) -> int {
        self.start as int
    }

    /// Slot past the newest element.
    pub closed spec fn spec_end(&self) -> int {
        self.end as int
    }

    /// The ring has the full complement of slots and both cursors lie
    /// within it.
    pub open spec fn wf(&self) -> bool {
        &&& self.spec_items().len() == CONCURRENT_DEQUE_SIZE
        &&& 0 <= self.spec_start() < CONCURRENT_DEQUE_SIZE
        &&& 0 <= self.spec_end() < CONCURRENT_DEQUE_SIZE
    }

    /// The queued elements, oldest first.
    pub open spec fn contents(&self) -> Seq<T> {
        if self.spec_start() <= self.spec_end() {
            self.spec_items().subrange(self.spec_start(), self.spec_end())
        } else {
            self.spec_items().subrange(self.spec_start(), CONCURRENT_DEQUE_SIZE as int)
                + self.spec_items().subrange(0, self.spec_end())
        }
    }

    /// An empty queue; the fill value only occupies the unused slots.
    pub fn new(fill: T) -> (r: ConcurrentDeque<T>)
        ensures
            r.wf(),
            r.contents() == Seq::<T>::empty(),
    {
        let mut items: Vec<T> = Vec::new();
        let mut i: usize = 0;
        while i < CONCURRENT_DEQUE_SIZE
            invariant
                i <= CONCURRENT_DEQUE_SIZE,
                items.len() == i,
            decreases CONCURRENT_DEQUE_SIZE - i,
        {
            items.push(fill);
            i = i + 1;
        }
        let r = ConcurrentDeque { items: items, start: 0, end: 0 };
        proof {
            assert(r.contents() =~= Seq::<T>::empty());
        }
        r
    }

    /// The queue holds no element.
    pub fn is_empty(&self) -> (r: bool)
        requires
            self.wf(),
        ensures
            r == (self.contents().len() == 0),
    {
        self.start == self.end
    }

    /// The queue holds its maximum of one less than the slot count.
    pub fn is_full(&self) -> (r: bool)
        requires
            self.wf(),
        ensures
            r == (self.contents().len() == CONCURRENT_DEQUE_SIZE - 1),
    {
        (self.start == 0 && self.end == CONCURRENT_DEQUE_SIZE - 1) || self.start == self.end + 1
    }

    /// Appends an element at the end of the queue; a full queue refuses it
    /// unchanged.
    pub fn push(&mut self, item: T) -> (r: Result<(), DequeError>)
        requires
            old(self).wf(),
        ensures
            final(self).wf(),
            old(self).contents().len() == CONCURRENT_DEQUE_SIZE - 1 ==> r == Result::<
                (),
                DequeError,
            >::Err(DequeError::Full) && final(self).contents() == old(self).contents(),
            old(self).contents().len() < CONCURRENT_DEQUE_SIZE - 1 ==> r is Ok && final(self).contents() == old(self).contents().push(item),
    {
        if self.is_full() {
            return Err(DequeError::Full);
        }
        let ghost before = *self;
        let _replaced = self.items.remove(self.end);
        self.items.insert(self.end, item);
        proof {
            assert(self.items@ =~= before.spec_items().update(before.spec_end(), item));
        }
        self.end = (self.end + 1) % CONCURRENT_DEQUE_SIZE;
        proof {
            assert(self.contents() =~= before.contents().push(item));
        }
        Ok(())
    }

    /// Removes and returns the oldest element, or `None` when the queue is
    /// empty.
    pub fn pop(&mut self) -> (r: Option<T>)
        requires
            old(self).wf(),
        ensures
            final(self).wf(),
            old(self).contents().len() == 0 ==> r is None && final(self).contents() == old(self).contents(),
            old(self).contents().len() > 0 ==> r == Some(old(self).contents()[0]) && final(self).contents() == old(self).contents().drop_first(),
    {
        if self.is_empty() {
            return None;
        }
        let ghost before = *self;
        let item = self.items[self.start];
        self.start = (self.start + 1) % CONCURRENT_DEQUE_SIZE;
        proof {
            assert(self.contents() =~= before.contents().drop_first());
        }
        Some(item)
    }

    /// Removes and returns the newest element, or `None` when the queue is
    /// empty.
    pub fn pop_end(&mut self) -> (r: Option<T>)
        requires
            old(self).wf(),
        ensures
            final(self).wf(),
            old(self).contents().len() == 0 ==> r is None && final(self).contents() == old(self).contents(),
            old(self).contents().len() > 0 ==> r == Some(old(self).contents().last()) && final(self).contents() == old(self).contents().drop_last(),
    {
        if self.is_empty() {
            return None;
        }
        let ghost before = *self;
        let slot = if self.end == 0 {
            CONCURRENT_DEQUE_SIZE - 1
        } else {
            self.end - 1
        };
        self.end = slot;
        let item = self.items[slot];
        proof {
            assert(self.contents() =~= before.contents().drop_last());
        }
        Some(item)
    }

    /// Synchronizes the reader's queue with the writer's queue.
    ///
    /// The slots from the reader's old end up to the writer's end are
    /// copied over — the elements pushed since the last synchronization —
    /// and the reader's end catches up with the writer's; the writer's
    /// start catches up with the reader's, reclaiming the slots the reader
    /// has consumed.
    pub fn sync(push_queue: &mut ConcurrentDeque<T>, pop_queue: &mut ConcurrentDeque<T>)
        requires
            old(push_queue).wf(),
            old(pop_queue).wf(),
        ensures
            final(push_queue).wf(),
            final(pop_queue).wf(),
            final(push_queue).spec_items() == old(push_queue).spec_items(),
            final(push_queue).spec_start() == old(pop_queue).spec_start(),
            final(push_queue).spec_end() == old(push_queue).spec_end(),
            final(pop_queue).spec_start() == old(pop_queue).spec_start(),
            final(pop_queue).spec_end() == old(push_queue).spec_end(),
            forall|p: int|
                0 <= p < CONCURRENT_DEQUE_SIZE ==> #[trigger] final(pop_queue).spec_items()[p]
                    == if ring_between(
                    old(pop_queue).spec_end(),
                    old(push_queue).spec_end(),
                    p,
                ) {
                    old(push_queue).spec_items()[p]
                } else {
                    old(pop_queue).spec_items()[p]
                },
    {
        let ghost push0 = *push_queue;
        let ghost pop0 = *pop_queue;
        let old_pop_end = pop_queue.end;
        let push_end = push_queue.end;
        let count = (push_end + CONCURRENT_DEQUE_SIZE - old_pop_end) % CONCURRENT_DEQUE_SIZE;
        let mut i: usize = 0;
        #[verifier::loop_isolation(false)]
        while i < count
            invariant
                pop_queue.spec_items().len() == CONCURRENT_DEQUE_SIZE,
                pop_queue.spec_start() == pop0.spec_start(),
                pop_queue.spec_end() == pop0.spec_end(),
                i <= count,
                forall|p: int|
                    0 <= p < CONCURRENT_DEQUE_SIZE ==> #[trigger] pop_queue.spec_items()[p] == if (
                    exists|k: int| 0 <= k < i && p == #[trigger] ring_step(pop0.spec_end(), k)) {
                        push0.spec_items()[p]
                    } else {
                        pop0.spec_items()[p]
                    },
            decreases count - i,
        {
            let idx = (old_pop_end + i) % CONCURRENT_DEQUE_SIZE;
            let value = push_queue.items[idx];
            let _replaced = pop_queue.items.remove(idx);
            pop_queue.items.insert(idx, value);
            proof {
                let ghost prev = pop_queue.spec_items();
                assert forall|p: int| 0 <= p < CONCURRENT_DEQUE_SIZE implies #[trigger] pop_queue.spec_items()[p]
                    == if (exists|k: int|
                    0 <= k < i + 1 && p == #[trigger] ring_step(pop0.spec_end(), k)) {
                    push0.spec_items()[p]
                } else {
                    pop0.spec_items()[p]
                } by {
                    if p == idx {
                        assert(0 <= i < i + 1 && idx == ring_step(pop0.spec_end(), i as int));
                    } else {
                        if exists|k: int|
                            0 <= k < i + 1 && p == #[trigger] ring_step(pop0.spec_end(), k) {
                            let k = choose|k: int|
                                0 <= k < i + 1 && p == #[trigger] ring_step(pop0.spec_end(), k);
                            assert(k != i);
                            assert(0 <= k < i && p == ring_step(pop0.spec_end(), k));
                        }
                    }
                }
            }
            i = i + 1;
        }
        pop_queue.end = push_queue.end;
        push_queue.start = pop_queue.start;
        proof {
            lemma_ring_range_complete(pop0.spec_end(), push0.spec_end(), count as int);
        }
    }
}

/// A ring position lies between `from` and `to` exactly when it is one of
/// the `count` positions stepped to from `from`, where `count` is the ring
/// distance from `from` to `to`.
proof fn lemma_ring_range_complete(from: int, to: int, count: int)
    requires
        0 <= from < CONCURRENT_DEQUE_SIZE,
        0 <= to < CONCURRENT_DEQUE_SIZE,
        count == (to + CONCURRENT_DEQUE_SIZE - from) % (CONCURRENT_DEQUE_SIZE as int),
    ensures
        forall|p: int|
            0 <= p < CONCURRENT_DEQUE_SIZE ==> (#[trigger] ring_between(from, to, p) <==> exists|
                k: int,
            |
                0 <= k < count && p == #[trigger] ring_step(from, k)),
{
    let n = CONCURRENT_DEQUE_SIZE as int;
    assert forall|p: int| 0 <= p < n implies (#[trigger] ring_between(from, to, p) <==> exists|
        k: int,
    |
        0 <= k < count && p == #[trigger] ring_step(from, k)) by {
        if ring_between(from, to, p) {
            let k = if p >= from {
                p - from
            } else {
                p + n - from
            };
            assert(0 <= k < count && p == ring_step(from, k)) by {
                assert((from + k) % n == p) by {
                    if p >= from {
                        assert((from + (p - from)) % n == p) by {
                            vstd::arithmetic::div_mod::lemma_small_mod(p as nat, n as nat);
                        }
                    } else {
                        assert(from + (p + n - from) == p + n);
                        assert((p + n) % n == p) by {
                            vstd::arithmetic::div_mod::lemma_mod_add_multiples_vanish(p, n);
                            vstd::arithmetic::div_mod::lemma_small_mod(p as nat, n as nat);
                        }
                    }
                }
            }
        }
        if exists|k: int| 0 <= k < count && p == #[trigger] ring_step(from, k) {
            let k = choose|k: int| 0 <= k < count && p == #[trigger] ring_step(from, k);
            if from + k < n {
                vstd::arithmetic::div_mod::lemma_small_mod((from + k) as nat, n as nat);
            } else {
                assert((from + k) % n == from + k - n) by {
                    vstd::arithmetic::div_mod::lemma_mod_sub_multiples_vanish(from + k, n);
                    vstd::arithmetic::div_mod::lemma_small_mod((from + k - n) as nat, n as nat);
                }
            }
            assert(ring_between(from, to, p));
        }
    }
}

} // verus!
