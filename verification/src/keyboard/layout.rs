//! Keyboard layouts: from scancodes to key types and printable bytes.

use vstd::prelude::*;

verus! {

/// The byte shown for a scancode the layout does not know.
pub const UNDEFINED_KEY: u8 = 63;

/// What kind of key a scancode names.
#[derive(Debug, Clone, Copy, PartialEq, Eq, Structural)]
pub enum KeyType {
    ESC,
    Ctrl,
    Shift,
    ShiftReleased,
    Alt,
    CapsLock,
    ArrowUp,
    ArrowDown,
    ArrowLeft,
    ArrowRight,
    /// A key with a printable byte (space, newline and
    /// backspace).
    Ascii,
    Unknown,
}

/// The supported keyboard layouts.
#[derive(Debug, Clone, Copy, PartialEq, Eq, Structural)]
pub enum Layout {
    Moonlander,
}

/// A keyboard layout: assigns each scancode a key type, and each printable
/// scancode a byte.
pub trait Layoutable {
    /// The key type the layout assigns to a scancode.
    spec fn spec_keytype(&self, scancode: u8) -> KeyType;

    /// The byte the layout assigns to a scancode.
    spec fn spec_ascii(&self, scancode: u8) -> u8;

    /// The key type the layout assigns to a scancode.
    fn to_keytype(&self, scancode: u8) -> (r: KeyType)
        ensures
            r == self.spec_keytype(scancode),
    ;

    /// The byte the layout assigns to a scancode.
    fn to_ascii(&self, scancode: u8) -> (r: u8)
        ensures
            r == self.spec_ascii(scancode),
    ;
}

/// Whether the scancode names a printable key of the moonlander layout:
/// a digit, backspace, a letter, space or newline.
pub open spec fn spec_moonlander_is_ascii(scancode: u8) -> bool {
    match scancode {
        2 | 3 | 4 | 5 | 6 | 7 | 8 | 9 | 10 | 11 | 14 => true,
        30 | 48 | 46 | 32 | 18 | 33 | 34 | 35 | 23 | 36 | 37 | 38 | 50 => true,
        49 | 24 | 25 | 16 | 19 | 31 | 20 | 22 | 47 | 17 | 45 | 21 | 44 => true,
        57 | 28 => true,
        _ => false,
    }
}

/// The byte of a moonlander scancode: digits, backspace, the letters,
/// space and newline; every other scancode shows the undefined-key byte.
pub open spec fn spec_moonlander_ascii(scancode: u8) -> u8 {
    match scancode {
        2 => 49,  // '1'
        3 => 50,
        4 => 51,
        5 => 52,
        6 => 53,
        7 => 54,
        8 => 55,
        9 => 56,
        10 => 57,
        11 => 48,  // '0'
        14 => 8,  // backspace
        30 => 97,  // 'a'
        48 => 98,
        46 => 99,
        32 => 100,
        18 => 101,
        33 => 102,
        34 => 103,
        35 => 104,
        23 => 105,
        36 => 106,
        37 => 107,
        38 => 108,
        50 => 109,
        49 => 110,
        24 => 111,
        25 => 112,
        16 => 113,
        19 => 114,
        31 => 115,
        20 => 116,
        22 => 117,
        47 => 118,
        17 => 119,
        45 => 120,
        21 => 121,
        44 => 122,  // 'z'
        57 => 32,  // space
        28 => 10,  // newline
        _ => UNDEFINED_KEY,
    }
}

/// The key type of a moonlander scancode: printable keys first, then the
/// modifier and arrow keys.
pub open spec fn spec_moonlander_keytype(scancode: u8) -> KeyType {
    if spec_moonlander_is_ascii(scancode) {
        KeyType::Ascii
    } else {
        match scancode {
            1 => KeyType::ESC,
            29 => KeyType::Ctrl,
            42 => KeyType::Shift,
            56 => KeyType::Alt,
            72 => KeyType::ArrowUp,
            80 => KeyType::ArrowDown,
            77 => KeyType::ArrowLeft,
            75 => KeyType::ArrowRight,
            170 => KeyType::ShiftReleased,
            58 => KeyType::CapsLock,
            _ => KeyType::Unknown,
        }
    }
}

/// The key type of a moonlander scancode.
pub fn moonlander_to_keytype(scancode: u8) -> (r: KeyType)
    ensures
        r == spec_moonlander_keytype(scancode),
{
    let is_ascii = match scancode {
        2 | 3 | 4 | 5 | 6 | 7 | 8 | 9 | 10 | 11 | 14 => true,
        30 | 48 | 46 | 32 | 18 | 33 | 34 | 35 | 23 | 36 | 37 | 38 | 50 => true,
        49 | 24 | 25 | 16 | 19 | 31 | 20 | 22 | 47 | 17 | 45 | 21 | 44 => true,
        57 | 28 => true,
        _ => false,
    };
    if is_ascii {
        return KeyType::Ascii;
    }
    match scancode {
        1 => KeyType::ESC,
        29 => KeyType::Ctrl,
        42 => KeyType::Shift,
        56 => KeyType::Alt,
        72 => KeyType::ArrowUp,
        80 => KeyType::ArrowDown,
        77 => KeyType::ArrowLeft,
        75 => KeyType::ArrowRight,
        170 => KeyType::ShiftReleased,
        58 => KeyType::CapsLock,
        _ => KeyType::Unknown,
    }
}

/// The byte of a moonlander scancode.
pub fn moonlander_to_ascii(scancode: u8) -> (r: u8)
    ensures
        r == spec_moonlander_ascii(scancode),
{
    match scancode {
        2 => 49,
        3 => 50,
        4 => 51,
        5 => 52,
        6 => 53,
        7 => 54,
        8 => 55,
        9 => 56,
        10 => 57,
        11 => 48,
        14 => 8,
        30 => 97,
        48 => 98,
        46 => 99,
        32 => 100,
        18 => 101,
        33 => 102,
        34 => 103,
        35 => 104,
        23 => 105,
        36 => 106,
        37 => 107,
        38 => 108,
        50 => 109,
        49 => 110,
        24 => 111,
        25 => 112,
        16 => 113,
        19 => 114,
        31 => 115,
        20 => 116,
        22 => 117,
        47 => 118,
        17 => 119,
        45 => 120,
        21 => 121,
        44 => 122,
        57 => 32,
        28 => 10,
        _ => UNDEFINED_KEY,
    }
}

impl Layoutable for Layout {
    open spec fn spec_keytype(&self, scancode: u8) -> KeyType {
        match self {
            Layout::Moonlander => spec_moonlander_keytype(scancode),
        }
    }

    open spec fn spec_ascii(&self, scancode: u8) -> u8 {
        match self {
            Layout::Moonlander => spec_moonlander_ascii(scancode),
        }
    }

    fn to_keytype(&self, scancode: u8) -> (r: KeyType) {
        match self {
            Layout::Moonlander => moonlander_to_keytype(scancode),
        }
    }

    fn to_ascii(&self, scancode: u8) -> (r: u8) {
        match self {
            Layout::Moonlander => moonlander_to_ascii(scancode),
        }
    }
}

} // verus!
