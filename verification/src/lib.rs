//! Memory-management core of a small teaching kernel, rebuilt as a library of
//! explicit owned state so that every component can be constructed and checked
//! against a synthetic memory map or arena.
//!
//! The core consists of a physical frame source, a four-level page-table
//! manager with an address translator, and two heap allocators (a plain bump
//! allocator and a free-list allocator).  Around the core stand the small
//! pure pieces of the kernel that need no hardware: the keyboard layout
//! decoder, the text-mode screen writer, the logging level, the shell command
//! parser, and the cooperative task bookkeeping.
//!
//! Concurrency discipline: nothing here is a global and nothing here locks.
//! Every component is an owned value that the embedder passes by reference,
//! and every operation either completes or reports a fatal error — none
//! blocks.  An embedder that shares a component between execution contexts
//! must wrap it in a lock of its own and must keep interrupt handlers from
//! calling into a component while interrupted code may hold that lock —
//! either by disabling interrupts for the duration of every such call or by
//! never calling in from a handler.  A plain spinlock is not interrupt-safe:
//! a handler spinning on a lock held by the code it interrupted can never
//! acquire it.

use vstd::prelude::*;

verus! {

/// Exit code reported to the emulator when the kernel finishes a test
/// run.  Writing it to the exit device is the runtime's work.
#[derive(Debug, Clone, Copy, PartialEq, Eq, Structural)]
pub enum QemuExitCode {
    /// Every test passed.
    Success,
    /// A test failed.
    Failed,
    /// Do not exit.
    NotExit,
}

impl QemuExitCode {
    /// The value written to the emulator's exit device.
    pub fn code(&self) -> (r: u32)
        ensures
            *self is Success ==> r == 0x10,
            *self is Failed ==> r == 0x11,
            *self is NotExit ==> r == 0x12,
    {
        match self {
            QemuExitCode::Success => 0x10,
            QemuExitCode::Failed => 0x11,
            QemuExitCode::NotExit => 0x12,
        }
    }
}

} // verus!

pub mod allocator;
pub mod apps;
pub mod bump_allocator;
pub mod interrupts;
pub mod keyboard;
pub mod linked_list_allocator;
pub mod logging;
pub mod memory;
pub mod process;
pub mod task;
pub mod util;
pub mod vga;
