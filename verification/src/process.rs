//! Process bookkeeping.
//!
//! A process carries the saved register context that the timer interrupt
//! writes at the top of its kernel stack.  The context itself is read and
//! written by the interrupt trampoline; here it is a plain record, and the
//! arithmetic that locates it on the stack is checked.  Stack allocation
//! and the actual context switch are hardware work and stay outside the
//! library.

use vstd::prelude::*;

verus! {

use crate::interrupts::INTERRUPT_CONTEXT_SIZE;
use crate::util::ConcurrentDeque;
use crate::util::CONCURRENT_DEQUE_SIZE;

/// Bytes of a process's kernel stack.
pub const KERNEL_STACK_SIZE: u64 = 4096 * 2;

/// Bytes of a process's user stack.
pub const USER_STACK_SIZE: u64 = 4096 * 5;

/// Processor flags value with interrupts enabled.
pub const RFLAGS_INTERRUPTS_ENABLED: u64 = 0x200;

/// A process: its identifier, privilege, and where its stacks and saved
/// context live.
#[derive(Debug, Clone, Copy, PartialEq, Eq, Structural)]
pub struct Process {
    /// Process identifier.
    pub id: u64,
    /// Whether the process runs in kernel mode.
    pub kernel: bool,
    /// Address of the saved register context on the kernel stack.
    pub context_addr: u64,
    /// First address past the kernel stack.
    pub kernel_stack_end: u64,
    /// First address past the user stack.
    pub user_stack_end: u64,
}

/// The saved register context that the timer interrupt trampoline pushes:
/// the general-purpose registers, then the exception frame the processor
/// pushes.
#[derive(Debug, Clone, Copy, PartialEq, Eq, Structural)]
pub struct Context {
    pub r15: u64,
    pub r14: u64,
    pub r13: u64,
    pub r12: u64,
    pub r11: u64,
    pub r10: u64,
    pub r9: u64,
    pub r8: u64,
    pub rbp: u64,
    pub rsi: u64,
    pub rdi: u64,
    pub rdx: u64,
    pub rcx: u64,
    pub rbx: u64,
    pub rax: u64,
    pub rip: u64,
    pub cs: u64,
    pub rflags: u64,
    pub rsp: u64,
    pub ss: u64,
}

impl Context {
    /// The initial context of a new process: instruction and stack
    /// pointers as given, the code and stack segments of its privilege
    /// level, interrupts enabled, and every general-purpose register
    /// cleared.
    pub fn init(rip: u64, rsp: u64, cs: u64, ss: u64) -> (r: Context)
        ensures
            r.rip == rip,
            r.rsp == rsp,
            r.cs == cs,
            r.ss == ss,
            r.rflags == RFLAGS_INTERRUPTS_ENABLED,
            r.rax == 0 && r.rbx == 0 && r.rcx == 0 && r.rdx == 0,
            r.rsi == 0 && r.rdi == 0 && r.rbp == 0,
            r.r8 == 0 && r.r9 == 0 && r.r10 == 0 && r.r11 == 0,
            r.r12 == 0 && r.r13 == 0 && r.r14 == 0 && r.r15 == 0,
    {
        Context {
            r15: 0,
            r14: 0,
            r13: 0,
            r12: 0,
            r11: 0,
            r10: 0,
            r9: 0,
            r8: 0,
            rbp: 0,
            rsi: 0,
            rdi: 0,
            rdx: 0,
            rcx: 0,
            rbx: 0,
            rax: 0,
            rip: rip,
            cs: cs,
            rflags: RFLAGS_INTERRUPTS_ENABLED,
            rsp: rsp,
            ss: ss,
        }
    }
}

/// Address of the saved context at the top of a kernel stack: the context
/// sits in the last `INTERRUPT_CONTEXT_SIZE` bytes before the stack's end.
pub fn context_addr(kernel_stack_end: u64) -> (r: u64)
    requires
        kernel_stack_end >= INTERRUPT_CONTEXT_SIZE,
    ensures
        r == kernel_stack_end - INTERRUPT_CONTEXT_SIZE,
{
    kernel_stack_end - INTERRUPT_CONTEXT_SIZE
}

impl Process {
    /// A new process over the given stacks, together with the initial
    /// context the kernel writes at the top of its kernel stack: entry
    /// point and user stack pointer as given, the privilege segments as
    /// given, interrupts enabled.
    pub fn new(
        id: u64,
        kernel: bool,
        kernel_stack_end: u64,
        user_stack_end: u64,
        rip: u64,
        cs: u64,
        ss: u64,
    ) -> (r: (Process, Context))
        requires
            kernel_stack_end >= INTERRUPT_CONTEXT_SIZE,
        ensures
            r.0.id == id,
            r.0.kernel == kernel,
            r.0.context_addr == kernel_stack_end - INTERRUPT_CONTEXT_SIZE,
            r.0.kernel_stack_end == kernel_stack_end,
            r.0.user_stack_end == user_stack_end,
            r.1.rip == rip,
            r.1.rsp == user_stack_end,
            r.1.cs == cs,
            r.1.ss == ss,
            r.1.rflags == RFLAGS_INTERRUPTS_ENABLED,
    {
        let addr = context_addr(kernel_stack_end);
        let context = Context::init(rip, user_stack_end, cs, ss);
        (
            Process {
                id: id,
                kernel: kernel,
                context_addr: addr,
                kernel_stack_end: kernel_stack_end,
                user_stack_end: user_stack_end,
            },
            context,
        )
    }
}

/// Creates a kernel-mode process over the given stacks and queues it for
/// the scheduler; a full queue drops it.  Returns the initial context that
/// the kernel writes at the top of the new process's kernel stack.
pub fn new_kernel_process(
    running_queue: &mut ConcurrentDeque<Process>,
    id: u64,
    kernel_stack_end: u64,
    user_stack_end: u64,
    rip: u64,
    cs: u64,
    ss: u64,
) -> (r: Context)
    requires
        old(running_queue).wf(),
        kernel_stack_end >= INTERRUPT_CONTEXT_SIZE,
    ensures
        final(running_queue).wf(),
        r.rip == rip && r.rsp == user_stack_end && r.cs == cs && r.ss == ss,
        old(running_queue).contents().len() < CONCURRENT_DEQUE_SIZE - 1 ==> final(running_queue).contents() == old(running_queue).contents().push(
            (Process {
                id: id,
                kernel: true,
                context_addr: (kernel_stack_end - INTERRUPT_CONTEXT_SIZE) as u64,
                kernel_stack_end: kernel_stack_end,
                user_stack_end: user_stack_end,
            }),
        ),
        old(running_queue).contents().len() == CONCURRENT_DEQUE_SIZE - 1 ==> final(running_queue).contents() == old(running_queue).contents(),
{
    let (proc, context) = Process::new(id, true, kernel_stack_end, user_stack_end, rip, cs, ss);
    let _ = running_queue.push(proc);
    context
}

/// The process whose saved context the timer handler switches to next.
///
/// The interrupted process, when there is one, records where its context
/// was saved and goes to the back of the running queue (a full queue drops
/// it); the process at the front of the queue becomes current.  Returns
/// the address of the next context, or zero when no process is waiting and
/// the handler must leave the stack alone.  Programming the interrupt
/// stack table for the chosen process is the handler's own, hardware-side
/// step.
pub fn schedule_next(
    running_queue: &mut ConcurrentDeque<Process>,
    current_proc: &mut Option<Process>,
    cur_context_addr: u64,
) -> (r: u64)
    requires
        old(running_queue).wf(),
    ensures
        final(running_queue).wf(),
        ({
            let queued = match *old(current_proc) {
                Some(t) => {
                    if old(running_queue).contents().len() < CONCURRENT_DEQUE_SIZE - 1 {
                        old(running_queue).contents().push(
                            (Process { context_addr: cur_context_addr, ..t }),
                        )
                    } else {
                        old(running_queue).contents()
                    }
                },
                None => old(running_queue).contents(),
            };
            if queued.len() == 0 {
                &&& *final(current_proc) is None
                &&& r == 0
                &&& final(running_queue).contents() == queued
            } else {
                &&& *final(current_proc) == Some(queued[0])
                &&& r == queued[0].context_addr
                &&& final(running_queue).contents() == queued.drop_first()
            }
        }),
{
    let taken = *current_proc;
    match taken {
        Some(thread) => {
            let mut requeued = thread;
            requeued.context_addr = cur_context_addr;
            let _ = running_queue.push(requeued);
        },
        None => {},
    }
    *current_proc = running_queue.pop();
    match current_proc {
        Some(thread) => thread.context_addr,
        None => 0,
    }
}

} // verus!
