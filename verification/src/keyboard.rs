//! Keyboard state and scancode decoding.
//!
//! The keyboard tracks the shift and caps-lock state and decodes
//! scancodes through its layout.  The interrupt handler's decision — how a
//! scancode changes the state and which byte, if any, goes to the input
//! buffer — is `handle_scancode`; reading the hardware port and
//! acknowledging the interrupt stay outside the library.

pub mod buffer;
pub mod layout;

use vstd::prelude::*;

verus! {

use crate::keyboard::layout::KeyType;
use crate::keyboard::layout::Layout;
use crate::keyboard::layout::Layoutable;

/// The uppercase form of an ascii byte: letters are raised, every other
/// byte is unchanged.
pub open spec fn spec_to_upper(b: u8) -> u8 {
    if 97 <= b <= 122 {
        (b - 32) as u8
    } else {
        b
    }
}

/// The byte a scancode yields under the given shift and caps-lock state:
/// raised to uppercase exactly when one of the two is active, as the two
/// cancel each other.
pub open spec fn spec_decoded(layout: Layout, scancode: u8, shift: bool, caps: bool) -> u8 {
    if caps != shift {
        spec_to_upper(layout.spec_ascii(scancode))
    } else {
        layout.spec_ascii(scancode)
    }
}

/// Raises an ascii letter to uppercase; other bytes pass unchanged.
pub fn to_uppercase(b: u8) -> (r: u8)
    ensures
        r == spec_to_upper(b),
{
    if b >= 97 && b <= 122 {
        b - 32
    } else {
        b
    }
}

/// Whether the scancode names a letter key of the plain layout (with space and
/// newline counted among them).
pub open spec fn spec_is_letter_scancode(scancode: u8) -> bool {
    match scancode {
        30 | 48 | 46 | 32 | 18 | 33 | 34 | 35 | 23 | 36 | 37 | 38 | 50 => true,
        49 | 24 | 25 | 16 | 19 | 31 | 20 | 22 | 47 | 17 | 45 | 21 | 44 => true,
        57 | 28 => true,
        _ => false,
    }
}

/// Whether the scancode names a letter key (space and newline counted among them).
pub fn is_letter_scancode(scancode: u8) -> (r: bool)
    ensures
        r == spec_is_letter_scancode(scancode),
{
    match scancode {
        30 | 48 | 46 | 32 | 18 | 33 | 34 | 35 | 23 | 36 | 37 | 38 | 50 => true,
        49 | 24 | 25 | 16 | 19 | 31 | 20 | 22 | 47 | 17 | 45 | 21 | 44 => true,
        57 | 28 => true,
        _ => false,
    }
}

/// The keyboard: its modifier state and its layout.
pub struct Keyboard {
    shift_pressed: bool,
    caps_lock_on: bool,
    layout: Layout,
}

impl Keyboard {
    /// Whether shift is held.
    pub closed spec fn spec_shift(&self) -> bool {
        self.shift_pressed
    }

    /// Whether caps lock is active.
    pub closed spec fn spec_caps_lock(&self) -> bool {
        self.caps_lock_on
    }

    /// The keyboard's layout.
    pub closed spec fn spec_layout(&self) -> Layout {
        self.layout
    }

    /// A keyboard with no modifier active, on the moonlander layout.
    pub fn new() -> (r: Keyboard)
        ensures
            !r.spec_shift(),
            !r.spec_caps_lock(),
            r.spec_layout() == Layout::Moonlander,
    {
        Keyboard { shift_pressed: false, caps_lock_on: false, layout: Layout::Moonlander }
    }

    /// Toggles caps lock.
    pub fn caps_lock(&mut self)
        ensures
            final(self).spec_caps_lock() == !old(self).spec_caps_lock(),
            final(self).spec_shift() == old(self).spec_shift(),
            final(self).spec_layout() == old(self).spec_layout(),
    {
        self.caps_lock_on = !self.caps_lock_on;
    }

    /// Records that shift was pressed.
    pub fn shift(&mut self)
        ensures
            final(self).spec_shift(),
            final(self).spec_caps_lock() == old(self).spec_caps_lock(),
            final(self).spec_layout() == old(self).spec_layout(),
    {
        self.shift_pressed = true;
    }

    /// Records that shift was released.
    pub fn shift_released(&mut self)
        ensures
            !final(self).spec_shift(),
            final(self).spec_caps_lock() == old(self).spec_caps_lock(),
            final(self).spec_layout() == old(self).spec_layout(),
    {
        self.shift_pressed = false;
    }

    /// The byte a scancode yields under the current modifier state:
    /// uppercase exactly when one of shift and caps lock is active.
    pub fn to_ascii(&self, scancode: u8) -> (r: u8)
        ensures
            r == spec_decoded(
                self.spec_layout(),
                scancode,
                self.spec_shift(),
                self.spec_caps_lock(),
            ),
    {
        let ascii = self.layout.to_ascii(scancode);
        match (self.caps_lock_on, self.shift_pressed) {
            (true, true) => ascii,
            (true, false) => to_uppercase(ascii),
            (false, true) => to_uppercase(ascii),
            (false, false) => ascii,
        }
    }

    /// Decides what a scancode does: modifier keys update the keyboard
    /// state and yield nothing; a printable key yields its byte under the
    /// current state; every other key yields nothing and changes nothing.
    ///
    /// This is the whole decision of the keyboard interrupt handler; the
    /// caller reads the scancode from the hardware and hands the returned
    /// byte to the input buffer.
    pub fn handle_scancode(&mut self, scancode: u8) -> (r: Option<u8>)
        ensures
            final(self).spec_layout() == old(self).spec_layout(),
            ({
                let kt = old(self).spec_layout().spec_keytype(scancode);
                match kt {
                    KeyType::Shift => r is None && final(self).spec_shift() && final(self).spec_caps_lock() == old(self).spec_caps_lock(),
                    KeyType::ShiftReleased => r is None && !final(self).spec_shift() && final(self).spec_caps_lock() == old(self).spec_caps_lock(),
                    KeyType::CapsLock => r is None && final(self).spec_caps_lock() == !old(self).spec_caps_lock() && final(self).spec_shift() == old(self).spec_shift(),
                    KeyType::Ascii => r == Some(
                        spec_decoded(
                            old(self).spec_layout(),
                            scancode,
                            old(self).spec_shift(),
                            old(self).spec_caps_lock(),
                        ),
                    ) && *final(self) == *old(self),
                    _ => r is None && *final(self) == *old(self),
                }
            }),
    {
        let keytype = self.layout.to_keytype(scancode);
        match keytype {
            KeyType::Shift => {
                self.shift();
                None
            },
            KeyType::ShiftReleased => {
                self.shift_released();
                None
            },
            KeyType::CapsLock => {
                self.caps_lock();
                None
            },
            KeyType::Ascii => {
                let ascii = self.to_ascii(scancode);
                Some(ascii)
            },
            _ => None,
        }
    }
}

} // verus!
