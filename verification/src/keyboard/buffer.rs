//! Keyboard byte buffers.
//!
//! Decoded bytes travel from the interrupt handler to readers through two
//! circular queues: the handler pushes into one, readers pop from the
//! other, and the two are synchronized when the reader's queue is free.

use vstd::prelude::*;

verus! {

use crate::util::ConcurrentDeque;

/// The queue the interrupt handler pushes decoded bytes into.
pub type PushBuffer = ConcurrentDeque<u8>;

/// The queue readers pop decoded bytes from.
pub type PopBuffer = ConcurrentDeque<u8>;

/// Pull-side handle over the pop buffer; the kernel drives it as an
/// asynchronous stream, waking readers when a byte arrives.
pub struct PopBufferStream {}

impl PopBufferStream {
    /// A handle over the pop buffer.
    pub fn new() -> (r: PopBufferStream) {
        PopBufferStream {  }
    }

    /// One poll of the stream: the oldest buffered byte, or `None` when
    /// nothing is buffered yet and the reader must wait.
    pub fn poll_next(&mut self, pop_buffer: &mut PopBuffer) -> (r: Option<u8>)
        requires
            old(pop_buffer).wf(),
        ensures
            final(pop_buffer).wf(),
            old(pop_buffer).contents().len() == 0 ==> r is None && final(pop_buffer).contents()
                == old(pop_buffer).contents(),
            old(pop_buffer).contents().len() > 0 ==> r == Some(old(pop_buffer).contents()[0])
                && final(pop_buffer).contents() == old(pop_buffer).contents().drop_first(),
    {
        pop_buffer.pop()
    }
}

} // verus!
