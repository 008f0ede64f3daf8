//! Interrupt vector numbers used by the rest of the kernel. The descriptor
//! table itself, the trap handlers and the controller programming are
//! hardware setup outside this library.

use vstd::prelude::*;

verus! {

/// Base vector of the first programmable interrupt controller.
pub const PIC1: u8 = 0x20;

/// Base vector of the second programmable interrupt controller.
pub const PIC2: u8 = PIC1 + 8;

/// Hardware interrupt vectors the kernel handles.
#[derive(Debug, Clone, Copy, PartialEq, Eq, Structural)]
pub enum InterruptIndex {
    /// The timer interrupt, on the first controller's base vector.
    Timer,
    /// The keyboard interrupt, one above the timer.
    Keyboard,
}

impl InterruptIndex {
    /// The interrupt's vector number.
    pub fn as_u8(self) -> (r: u8)
        ensures
            self == InterruptIndex::Timer ==> r == PIC1,
            self == InterruptIndex::Keyboard ==> r == PIC1 + 1,
    {
        match self {
            InterruptIndex::Timer => PIC1,
            InterruptIndex::Keyboard => PIC1 + 1,
        }
    }
}

} // verus!
