//! Interrupt numbering.
//!
//! The programmable interrupt controller's lines are remapped past the
//! CPU's reserved vectors; this module fixes the offset and the vector of
//! each hardware interrupt the kernel handles.  Installing handlers and
//! acknowledging interrupts is hardware work and stays outside the
//! library.

use vstd::prelude::*;

verus! {

/// First interrupt vector of the primary interrupt controller, past the
/// CPU's reserved vectors.
pub const PIC_1_OFFSET: u8 = 32;

/// Bytes that a saved interrupt context occupies on the kernel stack:
/// fifteen general-purpose registers plus the five words the processor
/// pushes.
pub const INTERRUPT_CONTEXT_SIZE: u64 = 20 * 8;

/// Hardware interrupts routed through the interrupt controller.
#[derive(Debug, Clone, Copy, PartialEq, Eq, Structural)]
pub enum PICInterrupt {
    /// The timer tick.
    Timer,
    /// A keyboard scancode is ready.
    Keyboard,
}

impl PICInterrupt {
    /// The interrupt vector of this line: the controller's offset plus the
    /// line number.
    pub fn vector(&self) -> (r: u8)
        ensures
            *self is Timer ==> r == PIC_1_OFFSET,
            *self is Keyboard ==> r == PIC_1_OFFSET + 1,
    {
        match self {
            PICInterrupt::Timer => PIC_1_OFFSET,
            PICInterrupt::Keyboard => PIC_1_OFFSET + 1,
        }
    }
}

} // verus!
