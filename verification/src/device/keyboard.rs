//! Keyboard input: key codes, the lock-key state, and the PS/2 and USB
//! keyboard drivers that turn scan codes and HID reports into keys.
use vstd::prelude::*;
use crate::collections::queue::Queue;

verus! {

/// Keys that are not printable characters.
#[derive(Clone, Copy, Debug, PartialEq, Eq, Structural)]
pub enum KeySpecial {
    NoKey,
    Enter,
    Tab,
    Esc,
    Backspace,
    Ctrl,
    Lshift,
    Rshift,
    PrintScreen,
    Lalt,
    CapsLock,
    F1,
    F2,
    F3,
    F4,
    F5,
    F6,
    F7,
    F8,
    F9,
    F10,
    NumLock,
    ScrollLock,
    Home,
    Up,
    PageUp,
    Left,
    Center,
    Right,
    End,
    Down,
    PageDown,
    Insert,
    Delete,
    F11,
    F12,
    Pause,
}

impl KeySpecial {
    /// The byte that stands for the key in the kernel's key codes.
    pub open spec fn spec_code(&self) -> u8 {
        match *self {
            KeySpecial::NoKey => 0x00,
            KeySpecial::Enter => 0x0A,
            KeySpecial::Tab => 0x09,
            KeySpecial::Esc => 0x1B,
            KeySpecial::Backspace => 0x08,
            KeySpecial::Ctrl => 0x81,
            KeySpecial::Lshift => 0x82,
            KeySpecial::Rshift => 0x83,
            KeySpecial::PrintScreen => 0x84,
            KeySpecial::Lalt => 0x85,
            KeySpecial::CapsLock => 0x86,
            KeySpecial::F1 => 0x87,
            KeySpecial::F2 => 0x88,
            KeySpecial::F3 => 0x89,
            KeySpecial::F4 => 0x8A,
            KeySpecial::F5 => 0x8B,
            KeySpecial::F6 => 0x8C,
            KeySpecial::F7 => 0x8D,
            KeySpecial::F8 => 0x8E,
            KeySpecial::F9 => 0x8F,
            KeySpecial::F10 => 0x90,
            KeySpecial::NumLock => 0x91,
            KeySpecial::ScrollLock => 0x92,
            KeySpecial::Home => 0x93,
            KeySpecial::Up => 0x94,
            KeySpecial::PageUp => 0x95,
            KeySpecial::Left => 0x96,
            KeySpecial::Center => 0x97,
            KeySpecial::Right => 0x98,
            KeySpecial::End => 0x99,
            KeySpecial::Down => 0x9A,
            KeySpecial::PageDown => 0x9B,
            KeySpecial::Insert => 0x9C,
            KeySpecial::Delete => 0x9D,
            KeySpecial::F11 => 0x9E,
            KeySpecial::F12 => 0x9F,
            KeySpecial::Pause => 0xA0,
        }
    }

    pub fn code(&self) -> (r: u8)
        ensures
            r == self.spec_code(),
    {
        match *self {
            KeySpecial::NoKey => 0x00,
            KeySpecial::Enter => 0x0A,
            KeySpecial::Tab => 0x09,
            KeySpecial::Esc => 0x1B,
            KeySpecial::Backspace => 0x08,
            KeySpecial::Ctrl => 0x81,
            KeySpecial::Lshift => 0x82,
            KeySpecial::Rshift => 0x83,
            KeySpecial::PrintScreen => 0x84,
            KeySpecial::Lalt => 0x85,
            KeySpecial::CapsLock => 0x86,
            KeySpecial::F1 => 0x87,
            KeySpecial::F2 => 0x88,
            KeySpecial::F3 => 0x89,
            KeySpecial::F4 => 0x8A,
            KeySpecial::F5 => 0x8B,
            KeySpecial::F6 => 0x8C,
            KeySpecial::F7 => 0x8D,
            KeySpecial::F8 => 0x8E,
            KeySpecial::F9 => 0x8F,
            KeySpecial::F10 => 0x90,
            KeySpecial::NumLock => 0x91,
            KeySpecial::ScrollLock => 0x92,
            KeySpecial::Home => 0x93,
            KeySpecial::Up => 0x94,
            KeySpecial::PageUp => 0x95,
            KeySpecial::Left => 0x96,
            KeySpecial::Center => 0x97,
            KeySpecial::Right => 0x98,
            KeySpecial::End => 0x99,
            KeySpecial::Down => 0x9A,
            KeySpecial::PageDown => 0x9B,
            KeySpecial::Insert => 0x9C,
            KeySpecial::Delete => 0x9D,
            KeySpecial::F11 => 0x9E,
            KeySpecial::F12 => 0x9F,
            KeySpecial::Pause => 0xA0,
        }
    }
}

/// A key: a printable character or a special key.
#[derive(Clone, Copy, Debug, PartialEq, Eq, Structural)]
pub enum Key {
    Ascii(u8),
    Special(KeySpecial),
}

pub open spec fn is_alpha_byte(c: u8) -> bool {
    (c >= 0x61 && c <= 0x7a) || (c >= 0x41 && c <= 0x5a)
}

impl Key {
    pub open spec fn spec_is_alpha(&self) -> bool {
        match *self {
            Key::Ascii(c) => is_alpha_byte(c),
            Key::Special(_) => false,
        }
    }

    /// A letter, `a` to `z` or `A` to `Z`.
    pub fn is_alpha(&self) -> (r: bool)
        ensures
            r == self.spec_is_alpha(),
    {
        match self {
            Key::Ascii(code) => (*code >= 0x61u8 && *code <= 0x7Au8) || (*code >= 0x41u8 && *code <= 0x5Au8),
            Key::Special(_) => false,
        }
    }

    /// A digit, `0` to `9`.
    pub fn is_num(&self) -> (r: bool)
        ensures
            r == (*self matches Key::Ascii(c) && 0x30 <= c <= 0x39),
    {
        match self {
            Key::Ascii(code) => *code >= 0x30u8 && *code <= 0x39u8,
            Key::Special(_) => false,
        }
    }
}

/// What a key code means alone (`normal`) and with shift or a lock (`combined`).
#[derive(Clone, Copy)]
pub struct KeyMappingEntry(pub Key, pub Key);

impl KeyMappingEntry {
    pub fn new(normal: Key, combined: Key) -> (r: Self)
        ensures
            r.0 == normal,
            r.1 == combined,
    {
        Self(normal, combined)
    }

    pub fn normal(&self) -> (r: Key)
        ensures
            r == self.0,
    {
        self.0
    }

    pub fn combined(&self) -> (r: Key)
        ensures
            r == self.1,
    {
        self.1
    }
}

/// Number of entries of the PS/2 scan code table.
pub const PS2_KEY_MAPPING_COUNT: u8 = 89;

/// Number of entries of the USB usage table.
pub const USB_KEY_MAPPING_COUNT: u8 = 103;

/// The PS/2 scan code set 1 table: (normal, combined) for each down code.
pub open spec fn ps2_mapping(code: u8) -> (Key, Key) {
    match code {
        0 => (Key::Special(KeySpecial::NoKey), Key::Special(KeySpecial::NoKey)),
        1 => (Key::Special(KeySpecial::Esc), Key::Special(KeySpecial::Esc)),
        2 => (Key::Ascii(0x31u8), Key::Ascii(0x21u8)),
        3 => (Key::Ascii(0x32u8), Key::Ascii(0x40u8)),
        4 => (Key::Ascii(0x33u8), Key::Ascii(0x23u8)),
        5 => (Key::Ascii(0x34u8), Key::Ascii(0x24u8)),
        6 => (Key::Ascii(0x35u8), Key::Ascii(0x25u8)),
        7 => (Key::Ascii(0x36u8), Key::Ascii(0x5Eu8)),
        8 => (Key::Ascii(0x37u8), Key::Ascii(0x26u8)),
        9 => (Key::Ascii(0x38u8), Key::Ascii(0x2Au8)),
        10 => (Key::Ascii(0x39u8), Key::Ascii(0x28u8)),
        11 => (Key::Ascii(0x30u8), Key::Ascii(0x29u8)),
        12 => (Key::Ascii(0x2Du8), Key::Ascii(0x5Fu8)),
        13 => (Key::Ascii(0x3Du8), Key::Ascii(0x2Bu8)),
        14 => (Key::Special(KeySpecial::Backspace), Key::Special(KeySpecial::Backspace)),
        15 => (Key::Special(KeySpecial::Tab), Key::Special(KeySpecial::Tab)),
        16 => (Key::Ascii(0x71u8), Key::Ascii(0x51u8)),
        17 => (Key::Ascii(0x77u8), Key::Ascii(0x57u8)),
        18 => (Key::Ascii(0x65u8), Key::Ascii(0x45u8)),
        19 => (Key::Ascii(0x72u8), Key::Ascii(0x52u8)),
        20 => (Key::Ascii(0x74u8), Key::Ascii(0x54u8)),
        21 => (Key::Ascii(0x79u8), Key::Ascii(0x59u8)),
        22 => (Key::Ascii(0x75u8), Key::Ascii(0x55u8)),
        23 => (Key::Ascii(0x69u8), Key::Ascii(0x49u8)),
        24 => (Key::Ascii(0x6Fu8), Key::Ascii(0x4Fu8)),
        25 => (Key::Ascii(0x70u8), Key::Ascii(0x50u8)),
        26 => (Key::Ascii(0x5Bu8), Key::Ascii(0x7Bu8)),
        27 => (Key::Ascii(0x5Du8), Key::Ascii(0x7Du8)),
        28 => (Key::Special(KeySpecial::Enter), Key::Special(KeySpecial::Enter)),
        29 => (Key::Special(KeySpecial::Ctrl), Key::Special(KeySpecial::Ctrl)),
        30 => (Key::Ascii(0x61u8), Key::Ascii(0x41u8)),
        31 => (Key::Ascii(0x73u8), Key::Ascii(0x53u8)),
        32 => (Key::Ascii(0x64u8), Key::Ascii(0x44u8)),
        33 => (Key::Ascii(0x66u8), Key::Ascii(0x46u8)),
        34 => (Key::Ascii(0x67u8), Key::Ascii(0x47u8)),
        35 => (Key::Ascii(0x68u8), Key::Ascii(0x48u8)),
        36 => (Key::Ascii(0x6Au8), Key::Ascii(0x4Au8)),
        37 => (Key::Ascii(0x6Bu8), Key::Ascii(0x4Bu8)),
        38 => (Key::Ascii(0x6Cu8), Key::Ascii(0x4Cu8)),
        39 => (Key::Ascii(0x3Bu8), Key::Ascii(0x3Au8)),
        40 => (Key::Ascii(0x27u8), Key::Ascii(0x22u8)),
        41 => (Key::Ascii(0x60u8), Key::Ascii(0x7Eu8)),
        42 => (Key::Special(KeySpecial::Lshift), Key::Special(KeySpecial::Lshift)),
        43 => (Key::Ascii(0x5Cu8), Key::Ascii(0x7Cu8)),
        44 => (Key::Ascii(0x7Au8), Key::Ascii(0x5Au8)),
        45 => (Key::Ascii(0x78u8), Key::Ascii(0x58u8)),
        46 => (Key::Ascii(0x63u8), Key::Ascii(0x43u8)),
        47 => (Key::Ascii(0x76u8), Key::Ascii(0x56u8)),
        48 => (Key::Ascii(0x62u8), Key::Ascii(0x42u8)),
        49 => (Key::Ascii(0x6Eu8), Key::Ascii(0x4Eu8)),
        50 => (Key::Ascii(0x6Du8), Key::Ascii(0x4Du8)),
        51 => (Key::Ascii(0x2Cu8), Key::Ascii(0x3Cu8)),
        52 => (Key::Ascii(0x2Eu8), Key::Ascii(0x3Eu8)),
        53 => (Key::Ascii(0x2Fu8), Key::Ascii(0x3Fu8)),
        54 => (Key::Special(KeySpecial::Rshift), Key::Special(KeySpecial::Rshift)),
        55 => (Key::Ascii(0x2Au8), Key::Ascii(0x2Au8)),
        56 => (Key::Special(KeySpecial::Lalt), Key::Special(KeySpecial::Lalt)),
        57 => (Key::Ascii(0x20u8), Key::Ascii(0x20u8)),
        58 => (Key::Special(KeySpecial::CapsLock), Key::Special(KeySpecial::CapsLock)),
        59 => (Key::Special(KeySpecial::F1), Key::Special(KeySpecial::F1)),
        60 => (Key::Special(KeySpecial::F2), Key::Special(KeySpecial::F2)),
        61 => (Key::Special(KeySpecial::F3), Key::Special(KeySpecial::F3)),
        62 => (Key::Special(KeySpecial::F4), Key::Special(KeySpecial::F4)),
        63 => (Key::Special(KeySpecial::F5), Key::Special(KeySpecial::F5)),
        64 => (Key::Special(KeySpecial::F6), Key::Special(KeySpecial::F6)),
        65 => (Key::Special(KeySpecial::F7), Key::Special(KeySpecial::F7)),
        66 => (Key::Special(KeySpecial::F8), Key::Special(KeySpecial::F8)),
        67 => (Key::Special(KeySpecial::F9), Key::Special(KeySpecial::F9)),
        68 => (Key::Special(KeySpecial::F10), Key::Special(KeySpecial::F10)),
        69 => (Key::Special(KeySpecial::NumLock), Key::Special(KeySpecial::NumLock)),
        70 => (Key::Special(KeySpecial::ScrollLock), Key::Special(KeySpecial::ScrollLock)),
        71 => (Key::Special(KeySpecial::Home), Key::Ascii(0x37u8)),
        72 => (Key::Special(KeySpecial::Up), Key::Ascii(0x38u8)),
        73 => (Key::Special(KeySpecial::PageUp), Key::Ascii(0x39u8)),
        74 => (Key::Ascii(0x2Du8), Key::Ascii(0x2Du8)),
        75 => (Key::Special(KeySpecial::Left), Key::Ascii(0x34u8)),
        76 => (Key::Special(KeySpecial::Center), Key::Ascii(0x35u8)),
        77 => (Key::Special(KeySpecial::Right), Key::Ascii(0x36u8)),
        78 => (Key::Ascii(0x2Bu8), Key::Ascii(0x2Bu8)),
        79 => (Key::Special(KeySpecial::End), Key::Ascii(0x31u8)),
        80 => (Key::Special(KeySpecial::Down), Key::Ascii(0x32u8)),
        81 => (Key::Special(KeySpecial::PageDown), Key::Ascii(0x33u8)),
        82 => (Key::Special(KeySpecial::Insert), Key::Ascii(0x30u8)),
        83 => (Key::Special(KeySpecial::Delete), Key::Ascii(0x2Eu8)),
        84 => (Key::Special(KeySpecial::NoKey), Key::Special(KeySpecial::NoKey)),
        85 => (Key::Special(KeySpecial::NoKey), Key::Special(KeySpecial::NoKey)),
        86 => (Key::Special(KeySpecial::NoKey), Key::Special(KeySpecial::NoKey)),
        87 => (Key::Special(KeySpecial::F11), Key::Special(KeySpecial::F11)),
        88 => (Key::Special(KeySpecial::F12), Key::Special(KeySpecial::F12)),
        _ => (Key::Special(KeySpecial::NoKey), Key::Special(KeySpecial::NoKey)),
    }
}

/// The table entry of a PS/2 down scan code.
pub fn ps2_key_mapping(code: u8) -> (r: KeyMappingEntry)
    requires
        code < PS2_KEY_MAPPING_COUNT,
    ensures
        (r.0, r.1) == ps2_mapping(code),
{
    match code {
        0 => KeyMappingEntry::new(Key::Special(KeySpecial::NoKey), Key::Special(KeySpecial::NoKey)),
        1 => KeyMappingEntry::new(Key::Special(KeySpecial::Esc), Key::Special(KeySpecial::Esc)),
        2 => KeyMappingEntry::new(Key::Ascii(0x31u8), Key::Ascii(0x21u8)),
        3 => KeyMappingEntry::new(Key::Ascii(0x32u8), Key::Ascii(0x40u8)),
        4 => KeyMappingEntry::new(Key::Ascii(0x33u8), Key::Ascii(0x23u8)),
        5 => KeyMappingEntry::new(Key::Ascii(0x34u8), Key::Ascii(0x24u8)),
        6 => KeyMappingEntry::new(Key::Ascii(0x35u8), Key::Ascii(0x25u8)),
        7 => KeyMappingEntry::new(Key::Ascii(0x36u8), Key::Ascii(0x5Eu8)),
        8 => KeyMappingEntry::new(Key::Ascii(0x37u8), Key::Ascii(0x26u8)),
        9 => KeyMappingEntry::new(Key::Ascii(0x38u8), Key::Ascii(0x2Au8)),
        10 => KeyMappingEntry::new(Key::Ascii(0x39u8), Key::Ascii(0x28u8)),
        11 => KeyMappingEntry::new(Key::Ascii(0x30u8), Key::Ascii(0x29u8)),
        12 => KeyMappingEntry::new(Key::Ascii(0x2Du8), Key::Ascii(0x5Fu8)),
        13 => KeyMappingEntry::new(Key::Ascii(0x3Du8), Key::Ascii(0x2Bu8)),
        14 => KeyMappingEntry::new(Key::Special(KeySpecial::Backspace), Key::Special(KeySpecial::Backspace)),
        15 => KeyMappingEntry::new(Key::Special(KeySpecial::Tab), Key::Special(KeySpecial::Tab)),
        16 => KeyMappingEntry::new(Key::Ascii(0x71u8), Key::Ascii(0x51u8)),
        17 => KeyMappingEntry::new(Key::Ascii(0x77u8), Key::Ascii(0x57u8)),
        18 => KeyMappingEntry::new(Key::Ascii(0x65u8), Key::Ascii(0x45u8)),
        19 => KeyMappingEntry::new(Key::Ascii(0x72u8), Key::Ascii(0x52u8)),
        20 => KeyMappingEntry::new(Key::Ascii(0x74u8), Key::Ascii(0x54u8)),
        21 => KeyMappingEntry::new(Key::Ascii(0x79u8), Key::Ascii(0x59u8)),
        22 => KeyMappingEntry::new(Key::Ascii(0x75u8), Key::Ascii(0x55u8)),
        23 => KeyMappingEntry::new(Key::Ascii(0x69u8), Key::Ascii(0x49u8)),
        24 => KeyMappingEntry::new(Key::Ascii(0x6Fu8), Key::Ascii(0x4Fu8)),
        25 => KeyMappingEntry::new(Key::Ascii(0x70u8), Key::Ascii(0x50u8)),
        26 => KeyMappingEntry::new(Key::Ascii(0x5Bu8), Key::Ascii(0x7Bu8)),
        27 => KeyMappingEntry::new(Key::Ascii(0x5Du8), Key::Ascii(0x7Du8)),
        28 => KeyMappingEntry::new(Key::Special(KeySpecial::Enter), Key::Special(KeySpecial::Enter)),
        29 => KeyMappingEntry::new(Key::Special(KeySpecial::Ctrl), Key::Special(KeySpecial::Ctrl)),
        30 => KeyMappingEntry::new(Key::Ascii(0x61u8), Key::Ascii(0x41u8)),
        31 => KeyMappingEntry::new(Key::Ascii(0x73u8), Key::Ascii(0x53u8)),
        32 => KeyMappingEntry::new(Key::Ascii(0x64u8), Key::Ascii(0x44u8)),
        33 => KeyMappingEntry::new(Key::Ascii(0x66u8), Key::Ascii(0x46u8)),
        34 => KeyMappingEntry::new(Key::Ascii(0x67u8), Key::Ascii(0x47u8)),
        35 => KeyMappingEntry::new(Key::Ascii(0x68u8), Key::Ascii(0x48u8)),
        36 => KeyMappingEntry::new(Key::Ascii(0x6Au8), Key::Ascii(0x4Au8)),
        37 => KeyMappingEntry::new(Key::Ascii(0x6Bu8), Key::Ascii(0x4Bu8)),
        38 => KeyMappingEntry::new(Key::Ascii(0x6Cu8), Key::Ascii(0x4Cu8)),
        39 => KeyMappingEntry::new(Key::Ascii(0x3Bu8), Key::Ascii(0x3Au8)),
        40 => KeyMappingEntry::new(Key::Ascii(0x27u8), Key::Ascii(0x22u8)),
        41 => KeyMappingEntry::new(Key::Ascii(0x60u8), Key::Ascii(0x7Eu8)),
        42 => KeyMappingEntry::new(Key::Special(KeySpecial::Lshift), Key::Special(KeySpecial::Lshift)),
        43 => KeyMappingEntry::new(Key::Ascii(0x5Cu8), Key::Ascii(0x7Cu8)),
        44 => KeyMappingEntry::new(Key::Ascii(0x7Au8), Key::Ascii(0x5Au8)),
        45 => KeyMappingEntry::new(Key::Ascii(0x78u8), Key::Ascii(0x58u8)),
        46 => KeyMappingEntry::new(Key::Ascii(0x63u8), Key::Ascii(0x43u8)),
        47 => KeyMappingEntry::new(Key::Ascii(0x76u8), Key::Ascii(0x56u8)),
        48 => KeyMappingEntry::new(Key::Ascii(0x62u8), Key::Ascii(0x42u8)),
        49 => KeyMappingEntry::new(Key::Ascii(0x6Eu8), Key::Ascii(0x4Eu8)),
        50 => KeyMappingEntry::new(Key::Ascii(0x6Du8), Key::Ascii(0x4Du8)),
        51 => KeyMappingEntry::new(Key::Ascii(0x2Cu8), Key::Ascii(0x3Cu8)),
        52 => KeyMappingEntry::new(Key::Ascii(0x2Eu8), Key::Ascii(0x3Eu8)),
        53 => KeyMappingEntry::new(Key::Ascii(0x2Fu8), Key::Ascii(0x3Fu8)),
        54 => KeyMappingEntry::new(Key::Special(KeySpecial::Rshift), Key::Special(KeySpecial::Rshift)),
        55 => KeyMappingEntry::new(Key::Ascii(0x2Au8), Key::Ascii(0x2Au8)),
        56 => KeyMappingEntry::new(Key::Special(KeySpecial::Lalt), Key::Special(KeySpecial::Lalt)),
        57 => KeyMappingEntry::new(Key::Ascii(0x20u8), Key::Ascii(0x20u8)),
        58 => KeyMappingEntry::new(Key::Special(KeySpecial::CapsLock), Key::Special(KeySpecial::CapsLock)),
        59 => KeyMappingEntry::new(Key::Special(KeySpecial::F1), Key::Special(KeySpecial::F1)),
        60 => KeyMappingEntry::new(Key::Special(KeySpecial::F2), Key::Special(KeySpecial::F2)),
        61 => KeyMappingEntry::new(Key::Special(KeySpecial::F3), Key::Special(KeySpecial::F3)),
        62 => KeyMappingEntry::new(Key::Special(KeySpecial::F4), Key::Special(KeySpecial::F4)),
        63 => KeyMappingEntry::new(Key::Special(KeySpecial::F5), Key::Special(KeySpecial::F5)),
        64 => KeyMappingEntry::new(Key::Special(KeySpecial::F6), Key::Special(KeySpecial::F6)),
        65 => KeyMappingEntry::new(Key::Special(KeySpecial::F7), Key::Special(KeySpecial::F7)),
        66 => KeyMappingEntry::new(Key::Special(KeySpecial::F8), Key::Special(KeySpecial::F8)),
        67 => KeyMappingEntry::new(Key::Special(KeySpecial::F9), Key::Special(KeySpecial::F9)),
        68 => KeyMappingEntry::new(Key::Special(KeySpecial::F10), Key::Special(KeySpecial::F10)),
        69 => KeyMappingEntry::new(Key::Special(KeySpecial::NumLock), Key::Special(KeySpecial::NumLock)),
        70 => KeyMappingEntry::new(Key::Special(KeySpecial::ScrollLock), Key::Special(KeySpecial::ScrollLock)),
        71 => KeyMappingEntry::new(Key::Special(KeySpecial::Home), Key::Ascii(0x37u8)),
        72 => KeyMappingEntry::new(Key::Special(KeySpecial::Up), Key::Ascii(0x38u8)),
        73 => KeyMappingEntry::new(Key::Special(KeySpecial::PageUp), Key::Ascii(0x39u8)),
        74 => KeyMappingEntry::new(Key::Ascii(0x2Du8), Key::Ascii(0x2Du8)),
        75 => KeyMappingEntry::new(Key::Special(KeySpecial::Left), Key::Ascii(0x34u8)),
        76 => KeyMappingEntry::new(Key::Special(KeySpecial::Center), Key::Ascii(0x35u8)),
        77 => KeyMappingEntry::new(Key::Special(KeySpecial::Right), Key::Ascii(0x36u8)),
        78 => KeyMappingEntry::new(Key::Ascii(0x2Bu8), Key::Ascii(0x2Bu8)),
        79 => KeyMappingEntry::new(Key::Special(KeySpecial::End), Key::Ascii(0x31u8)),
        80 => KeyMappingEntry::new(Key::Special(KeySpecial::Down), Key::Ascii(0x32u8)),
        81 => KeyMappingEntry::new(Key::Special(KeySpecial::PageDown), Key::Ascii(0x33u8)),
        82 => KeyMappingEntry::new(Key::Special(KeySpecial::Insert), Key::Ascii(0x30u8)),
        83 => KeyMappingEntry::new(Key::Special(KeySpecial::Delete), Key::Ascii(0x2Eu8)),
        84 => KeyMappingEntry::new(Key::Special(KeySpecial::NoKey), Key::Special(KeySpecial::NoKey)),
        85 => KeyMappingEntry::new(Key::Special(KeySpecial::NoKey), Key::Special(KeySpecial::NoKey)),
        86 => KeyMappingEntry::new(Key::Special(KeySpecial::NoKey), Key::Special(KeySpecial::NoKey)),
        87 => KeyMappingEntry::new(Key::Special(KeySpecial::F11), Key::Special(KeySpecial::F11)),
        88 => KeyMappingEntry::new(Key::Special(KeySpecial::F12), Key::Special(KeySpecial::F12)),
        _ => KeyMappingEntry::new(Key::Special(KeySpecial::NoKey), Key::Special(KeySpecial::NoKey)),
    }
}

/// The USB HID usage table: (normal, combined) for each usage ID.
pub open spec fn usb_mapping(code: u8) -> (Key, Key) {
    match code {
        0 => (Key::Special(KeySpecial::NoKey), Key::Special(KeySpecial::NoKey)),
        1 => (Key::Special(KeySpecial::NoKey), Key::Special(KeySpecial::NoKey)),
        2 => (Key::Special(KeySpecial::NoKey), Key::Special(KeySpecial::NoKey)),
        3 => (Key::Special(KeySpecial::NoKey), Key::Special(KeySpecial::NoKey)),
        4 => (Key::Ascii(0x61u8), Key::Ascii(0x41u8)),
        5 => (Key::Ascii(0x62u8), Key::Ascii(0x42u8)),
        6 => (Key::Ascii(0x63u8), Key::Ascii(0x43u8)),
        7 => (Key::Ascii(0x64u8), Key::Ascii(0x44u8)),
        8 => (Key::Ascii(0x65u8), Key::Ascii(0x45u8)),
        9 => (Key::Ascii(0x66u8), Key::Ascii(0x46u8)),
        10 => (Key::Ascii(0x67u8), Key::Ascii(0x47u8)),
        11 => (Key::Ascii(0x68u8), Key::Ascii(0x48u8)),
        12 => (Key::Ascii(0x69u8), Key::Ascii(0x49u8)),
        13 => (Key::Ascii(0x6Au8), Key::Ascii(0x4Au8)),
        14 => (Key::Ascii(0x6Bu8), Key::Ascii(0x4Bu8)),
        15 => (Key::Ascii(0x6Cu8), Key::Ascii(0x4Cu8)),
        16 => (Key::Ascii(0x6Du8), Key::Ascii(0x4Du8)),
        17 => (Key::Ascii(0x6Eu8), Key::Ascii(0x4Eu8)),
        18 => (Key::Ascii(0x6Fu8), Key::Ascii(0x4Fu8)),
        19 => (Key::Ascii(0x70u8), Key::Ascii(0x50u8)),
        20 => (Key::Ascii(0x71u8), Key::Ascii(0x51u8)),
        21 => (Key::Ascii(0x72u8), Key::Ascii(0x52u8)),
        22 => (Key::Ascii(0x73u8), Key::Ascii(0x53u8)),
        23 => (Key::Ascii(0x74u8), Key::Ascii(0x54u8)),
        24 => (Key::Ascii(0x75u8), Key::Ascii(0x55u8)),
        25 => (Key::Ascii(0x76u8), Key::Ascii(0x56u8)),
        26 => (Key::Ascii(0x77u8), Key::Ascii(0x57u8)),
        27 => (Key::Ascii(0x78u8), Key::Ascii(0x58u8)),
        28 => (Key::Ascii(0x79u8), Key::Ascii(0x59u8)),
        29 => (Key::Ascii(0x7Au8), Key::Ascii(0x5Au8)),
        30 => (Key::Ascii(0x31u8), Key::Ascii(0x21u8)),
        31 => (Key::Ascii(0x32u8), Key::Ascii(0x40u8)),
        32 => (Key::Ascii(0x33u8), Key::Ascii(0x23u8)),
        33 => (Key::Ascii(0x34u8), Key::Ascii(0x24u8)),
        34 => (Key::Ascii(0x35u8), Key::Ascii(0x25u8)),
        35 => (Key::Ascii(0x36u8), Key::Ascii(0x5Eu8)),
        36 => (Key::Ascii(0x37u8), Key::Ascii(0x26u8)),
        37 => (Key::Ascii(0x38u8), Key::Ascii(0x2Au8)),
        38 => (Key::Ascii(0x39u8), Key::Ascii(0x28u8)),
        39 => (Key::Ascii(0x30u8), Key::Ascii(0x29u8)),
        40 => (Key::Special(KeySpecial::Enter), Key::Special(KeySpecial::Enter)),
        41 => (Key::Special(KeySpecial::Esc), Key::Special(KeySpecial::Esc)),
        42 => (Key::Special(KeySpecial::Backspace), Key::Special(KeySpecial::Backspace)),
        43 => (Key::Special(KeySpecial::Tab), Key::Special(KeySpecial::Tab)),
        44 => (Key::Ascii(0x20u8), Key::Ascii(0x20u8)),
        45 => (Key::Ascii(0x2Du8), Key::Ascii(0x5Fu8)),
        46 => (Key::Ascii(0x3Du8), Key::Ascii(0x2Bu8)),
        47 => (Key::Ascii(0x5Bu8), Key::Ascii(0x7Bu8)),
        48 => (Key::Ascii(0x5Du8), Key::Ascii(0x7Du8)),
        49 => (Key::Ascii(0x5Cu8), Key::Ascii(0x7Cu8)),
        50 => (Key::Ascii(0x5Cu8), Key::Ascii(0x7Cu8)),
        51 => (Key::Ascii(0x3Bu8), Key::Ascii(0x3Au8)),
        52 => (Key::Ascii(0x27u8), Key::Ascii(0x22u8)),
        53 => (Key::Ascii(0x60u8), Key::Ascii(0x7Eu8)),
        54 => (Key::Ascii(0x2Cu8), Key::Ascii(0x3Cu8)),
        55 => (Key::Ascii(0x2Eu8), Key::Ascii(0x3Eu8)),
        56 => (Key::Ascii(0x2Fu8), Key::Ascii(0x3Fu8)),
        57 => (Key::Special(KeySpecial::CapsLock), Key::Special(KeySpecial::CapsLock)),
        58 => (Key::Special(KeySpecial::F1), Key::Special(KeySpecial::F1)),
        59 => (Key::Special(KeySpecial::F2), Key::Special(KeySpecial::F2)),
        60 => (Key::Special(KeySpecial::F3), Key::Special(KeySpecial::F3)),
        61 => (Key::Special(KeySpecial::F4), Key::Special(KeySpecial::F4)),
        62 => (Key::Special(KeySpecial::F5), Key::Special(KeySpecial::F5)),
        63 => (Key::Special(KeySpecial::F6), Key::Special(KeySpecial::F6)),
        64 => (Key::Special(KeySpecial::F7), Key::Special(KeySpecial::F7)),
        65 => (Key::Special(KeySpecial::F8), Key::Special(KeySpecial::F8)),
        66 => (Key::Special(KeySpecial::F9), Key::Special(KeySpecial::F9)),
        67 => (Key::Special(KeySpecial::F10), Key::Special(KeySpecial::F10)),
        68 => (Key::Special(KeySpecial::F11), Key::Special(KeySpecial::F11)),
        69 => (Key::Special(KeySpecial::F12), Key::Special(KeySpecial::F12)),
        70 => (Key::Special(KeySpecial::ScrollLock), Key::Special(KeySpecial::ScrollLock)),
        71 => (Key::Special(KeySpecial::NoKey), Key::Special(KeySpecial::NoKey)),
        72 => (Key::Special(KeySpecial::NoKey), Key::Special(KeySpecial::NoKey)),
        73 => (Key::Special(KeySpecial::Insert), Key::Special(KeySpecial::Insert)),
        74 => (Key::Special(KeySpecial::Home), Key::Special(KeySpecial::Home)),
        75 => (Key::Special(KeySpecial::PageUp), Key::Special(KeySpecial::PageUp)),
        76 => (Key::Special(KeySpecial::Delete), Key::Special(KeySpecial::Delete)),
        77 => (Key::Special(KeySpecial::End), Key::Special(KeySpecial::End)),
        78 => (Key::Special(KeySpecial::PageDown), Key::Special(KeySpecial::PageDown)),
        79 => (Key::Special(KeySpecial::Right), Key::Special(KeySpecial::Right)),
        80 => (Key::Special(KeySpecial::Left), Key::Special(KeySpecial::Left)),
        81 => (Key::Special(KeySpecial::Down), Key::Special(KeySpecial::Down)),
        82 => (Key::Special(KeySpecial::Up), Key::Special(KeySpecial::Up)),
        83 => (Key::Special(KeySpecial::NumLock), Key::Special(KeySpecial::NumLock)),
        84 => (Key::Ascii(0x2Fu8), Key::Ascii(0x2Fu8)),
        85 => (Key::Ascii(0x2Au8), Key::Ascii(0x2Au8)),
        86 => (Key::Ascii(0x2Du8), Key::Ascii(0x2Du8)),
        87 => (Key::Ascii(0x2Bu8), Key::Ascii(0x2Bu8)),
        88 => (Key::Special(KeySpecial::Enter), Key::Special(KeySpecial::Enter)),
        89 => (Key::Ascii(0x31u8), Key::Special(KeySpecial::End)),
        90 => (Key::Ascii(0x32u8), Key::Special(KeySpecial::Down)),
        91 => (Key::Ascii(0x33u8), Key::Special(KeySpecial::PageDown)),
        92 => (Key::Ascii(0x34u8), Key::Special(KeySpecial::Left)),
        93 => (Key::Ascii(0x35u8), Key::Special(KeySpecial::Center)),
        94 => (Key::Ascii(0x36u8), Key::Special(KeySpecial::Right)),
        95 => (Key::Ascii(0x37u8), Key::Special(KeySpecial::Home)),
        96 => (Key::Ascii(0x38u8), Key::Special(KeySpecial::Up)),
        97 => (Key::Ascii(0x39u8), Key::Special(KeySpecial::PageUp)),
        98 => (Key::Ascii(0x30u8), Key::Special(KeySpecial::Insert)),
        99 => (Key::Ascii(0x2Eu8), Key::Special(KeySpecial::Delete)),
        100 => (Key::Special(KeySpecial::NoKey), Key::Special(KeySpecial::NoKey)),
        101 => (Key::Special(KeySpecial::NoKey), Key::Special(KeySpecial::NoKey)),
        102 => (Key::Ascii(0x3Du8), Key::Ascii(0x3Du8)),
        _ => (Key::Special(KeySpecial::NoKey), Key::Special(KeySpecial::NoKey)),
    }
}

/// The table entry of a USB usage ID, if the table has one.
pub fn usb_key_mapping(code: u8) -> (r: Option<KeyMappingEntry>)
    ensures
        code >= USB_KEY_MAPPING_COUNT ==> r is None,
        code < USB_KEY_MAPPING_COUNT ==> (r matches Some(e) && (e.0, e.1) == usb_mapping(code)),
{
    if code >= USB_KEY_MAPPING_COUNT {
        return None;
    }
    Some(match code {
        0 => KeyMappingEntry::new(Key::Special(KeySpecial::NoKey), Key::Special(KeySpecial::NoKey)),
        1 => KeyMappingEntry::new(Key::Special(KeySpecial::NoKey), Key::Special(KeySpecial::NoKey)),
        2 => KeyMappingEntry::new(Key::Special(KeySpecial::NoKey), Key::Special(KeySpecial::NoKey)),
        3 => KeyMappingEntry::new(Key::Special(KeySpecial::NoKey), Key::Special(KeySpecial::NoKey)),
        4 => KeyMappingEntry::new(Key::Ascii(0x61u8), Key::Ascii(0x41u8)),
        5 => KeyMappingEntry::new(Key::Ascii(0x62u8), Key::Ascii(0x42u8)),
        6 => KeyMappingEntry::new(Key::Ascii(0x63u8), Key::Ascii(0x43u8)),
        7 => KeyMappingEntry::new(Key::Ascii(0x64u8), Key::Ascii(0x44u8)),
        8 => KeyMappingEntry::new(Key::Ascii(0x65u8), Key::Ascii(0x45u8)),
        9 => KeyMappingEntry::new(Key::Ascii(0x66u8), Key::Ascii(0x46u8)),
        10 => KeyMappingEntry::new(Key::Ascii(0x67u8), Key::Ascii(0x47u8)),
        11 => KeyMappingEntry::new(Key::Ascii(0x68u8), Key::Ascii(0x48u8)),
        12 => KeyMappingEntry::new(Key::Ascii(0x69u8), Key::Ascii(0x49u8)),
        13 => KeyMappingEntry::new(Key::Ascii(0x6Au8), Key::Ascii(0x4Au8)),
        14 => KeyMappingEntry::new(Key::Ascii(0x6Bu8), Key::Ascii(0x4Bu8)),
        15 => KeyMappingEntry::new(Key::Ascii(0x6Cu8), Key::Ascii(0x4Cu8)),
        16 => KeyMappingEntry::new(Key::Ascii(0x6Du8), Key::Ascii(0x4Du8)),
        17 => KeyMappingEntry::new(Key::Ascii(0x6Eu8), Key::Ascii(0x4Eu8)),
        18 => KeyMappingEntry::new(Key::Ascii(0x6Fu8), Key::Ascii(0x4Fu8)),
        19 => KeyMappingEntry::new(Key::Ascii(0x70u8), Key::Ascii(0x50u8)),
        20 => KeyMappingEntry::new(Key::Ascii(0x71u8), Key::Ascii(0x51u8)),
        21 => KeyMappingEntry::new(Key::Ascii(0x72u8), Key::Ascii(0x52u8)),
        22 => KeyMappingEntry::new(Key::Ascii(0x73u8), Key::Ascii(0x53u8)),
        23 => KeyMappingEntry::new(Key::Ascii(0x74u8), Key::Ascii(0x54u8)),
        24 => KeyMappingEntry::new(Key::Ascii(0x75u8), Key::Ascii(0x55u8)),
        25 => KeyMappingEntry::new(Key::Ascii(0x76u8), Key::Ascii(0x56u8)),
        26 => KeyMappingEntry::new(Key::Ascii(0x77u8), Key::Ascii(0x57u8)),
        27 => KeyMappingEntry::new(Key::Ascii(0x78u8), Key::Ascii(0x58u8)),
        28 => KeyMappingEntry::new(Key::Ascii(0x79u8), Key::Ascii(0x59u8)),
        29 => KeyMappingEntry::new(Key::Ascii(0x7Au8), Key::Ascii(0x5Au8)),
        30 => KeyMappingEntry::new(Key::Ascii(0x31u8), Key::Ascii(0x21u8)),
        31 => KeyMappingEntry::new(Key::Ascii(0x32u8), Key::Ascii(0x40u8)),
        32 => KeyMappingEntry::new(Key::Ascii(0x33u8), Key::Ascii(0x23u8)),
        33 => KeyMappingEntry::new(Key::Ascii(0x34u8), Key::Ascii(0x24u8)),
        34 => KeyMappingEntry::new(Key::Ascii(0x35u8), Key::Ascii(0x25u8)),
        35 => KeyMappingEntry::new(Key::Ascii(0x36u8), Key::Ascii(0x5Eu8)),
        36 => KeyMappingEntry::new(Key::Ascii(0x37u8), Key::Ascii(0x26u8)),
        37 => KeyMappingEntry::new(Key::Ascii(0x38u8), Key::Ascii(0x2Au8)),
        38 => KeyMappingEntry::new(Key::Ascii(0x39u8), Key::Ascii(0x28u8)),
        39 => KeyMappingEntry::new(Key::Ascii(0x30u8), Key::Ascii(0x29u8)),
        40 => KeyMappingEntry::new(Key::Special(KeySpecial::Enter), Key::Special(KeySpecial::Enter)),
        41 => KeyMappingEntry::new(Key::Special(KeySpecial::Esc), Key::Special(KeySpecial::Esc)),
        42 => KeyMappingEntry::new(Key::Special(KeySpecial::Backspace), Key::Special(KeySpecial::Backspace)),
        43 => KeyMappingEntry::new(Key::Special(KeySpecial::Tab), Key::Special(KeySpecial::Tab)),
        44 => KeyMappingEntry::new(Key::Ascii(0x20u8), Key::Ascii(0x20u8)),
        45 => KeyMappingEntry::new(Key::Ascii(0x2Du8), Key::Ascii(0x5Fu8)),
        46 => KeyMappingEntry::new(Key::Ascii(0x3Du8), Key::Ascii(0x2Bu8)),
        47 => KeyMappingEntry::new(Key::Ascii(0x5Bu8), Key::Ascii(0x7Bu8)),
        48 => KeyMappingEntry::new(Key::Ascii(0x5Du8), Key::Ascii(0x7Du8)),
        49 => KeyMappingEntry::new(Key::Ascii(0x5Cu8), Key::Ascii(0x7Cu8)),
        50 => KeyMappingEntry::new(Key::Ascii(0x5Cu8), Key::Ascii(0x7Cu8)),
        51 => KeyMappingEntry::new(Key::Ascii(0x3Bu8), Key::Ascii(0x3Au8)),
        52 => KeyMappingEntry::new(Key::Ascii(0x27u8), Key::Ascii(0x22u8)),
        53 => KeyMappingEntry::new(Key::Ascii(0x60u8), Key::Ascii(0x7Eu8)),
        54 => KeyMappingEntry::new(Key::Ascii(0x2Cu8), Key::Ascii(0x3Cu8)),
        55 => KeyMappingEntry::new(Key::Ascii(0x2Eu8), Key::Ascii(0x3Eu8)),
        56 => KeyMappingEntry::new(Key::Ascii(0x2Fu8), Key::Ascii(0x3Fu8)),
        57 => KeyMappingEntry::new(Key::Special(KeySpecial::CapsLock), Key::Special(KeySpecial::CapsLock)),
        58 => KeyMappingEntry::new(Key::Special(KeySpecial::F1), Key::Special(KeySpecial::F1)),
        59 => KeyMappingEntry::new(Key::Special(KeySpecial::F2), Key::Special(KeySpecial::F2)),
        60 => KeyMappingEntry::new(Key::Special(KeySpecial::F3), Key::Special(KeySpecial::F3)),
        61 => KeyMappingEntry::new(Key::Special(KeySpecial::F4), Key::Special(KeySpecial::F4)),
        62 => KeyMappingEntry::new(Key::Special(KeySpecial::F5), Key::Special(KeySpecial::F5)),
        63 => KeyMappingEntry::new(Key::Special(KeySpecial::F6), Key::Special(KeySpecial::F6)),
        64 => KeyMappingEntry::new(Key::Special(KeySpecial::F7), Key::Special(KeySpecial::F7)),
        65 => KeyMappingEntry::new(Key::Special(KeySpecial::F8), Key::Special(KeySpecial::F8)),
        66 => KeyMappingEntry::new(Key::Special(KeySpecial::F9), Key::Special(KeySpecial::F9)),
        67 => KeyMappingEntry::new(Key::Special(KeySpecial::F10), Key::Special(KeySpecial::F10)),
        68 => KeyMappingEntry::new(Key::Special(KeySpecial::F11), Key::Special(KeySpecial::F11)),
        69 => KeyMappingEntry::new(Key::Special(KeySpecial::F12), Key::Special(KeySpecial::F12)),
        70 => KeyMappingEntry::new(Key::Special(KeySpecial::ScrollLock), Key::Special(KeySpecial::ScrollLock)),
        71 => KeyMappingEntry::new(Key::Special(KeySpecial::NoKey), Key::Special(KeySpecial::NoKey)),
        72 => KeyMappingEntry::new(Key::Special(KeySpecial::NoKey), Key::Special(KeySpecial::NoKey)),
        73 => KeyMappingEntry::new(Key::Special(KeySpecial::Insert), Key::Special(KeySpecial::Insert)),
        74 => KeyMappingEntry::new(Key::Special(KeySpecial::Home), Key::Special(KeySpecial::Home)),
        75 => KeyMappingEntry::new(Key::Special(KeySpecial::PageUp), Key::Special(KeySpecial::PageUp)),
        76 => KeyMappingEntry::new(Key::Special(KeySpecial::Delete), Key::Special(KeySpecial::Delete)),
        77 => KeyMappingEntry::new(Key::Special(KeySpecial::End), Key::Special(KeySpecial::End)),
        78 => KeyMappingEntry::new(Key::Special(KeySpecial::PageDown), Key::Special(KeySpecial::PageDown)),
        79 => KeyMappingEntry::new(Key::Special(KeySpecial::Right), Key::Special(KeySpecial::Right)),
        80 => KeyMappingEntry::new(Key::Special(KeySpecial::Left), Key::Special(KeySpecial::Left)),
        81 => KeyMappingEntry::new(Key::Special(KeySpecial::Down), Key::Special(KeySpecial::Down)),
        82 => KeyMappingEntry::new(Key::Special(KeySpecial::Up), Key::Special(KeySpecial::Up)),
        83 => KeyMappingEntry::new(Key::Special(KeySpecial::NumLock), Key::Special(KeySpecial::NumLock)),
        84 => KeyMappingEntry::new(Key::Ascii(0x2Fu8), Key::Ascii(0x2Fu8)),
        85 => KeyMappingEntry::new(Key::Ascii(0x2Au8), Key::Ascii(0x2Au8)),
        86 => KeyMappingEntry::new(Key::Ascii(0x2Du8), Key::Ascii(0x2Du8)),
        87 => KeyMappingEntry::new(Key::Ascii(0x2Bu8), Key::Ascii(0x2Bu8)),
        88 => KeyMappingEntry::new(Key::Special(KeySpecial::Enter), Key::Special(KeySpecial::Enter)),
        89 => KeyMappingEntry::new(Key::Ascii(0x31u8), Key::Special(KeySpecial::End)),
        90 => KeyMappingEntry::new(Key::Ascii(0x32u8), Key::Special(KeySpecial::Down)),
        91 => KeyMappingEntry::new(Key::Ascii(0x33u8), Key::Special(KeySpecial::PageDown)),
        92 => KeyMappingEntry::new(Key::Ascii(0x34u8), Key::Special(KeySpecial::Left)),
        93 => KeyMappingEntry::new(Key::Ascii(0x35u8), Key::Special(KeySpecial::Center)),
        94 => KeyMappingEntry::new(Key::Ascii(0x36u8), Key::Special(KeySpecial::Right)),
        95 => KeyMappingEntry::new(Key::Ascii(0x37u8), Key::Special(KeySpecial::Home)),
        96 => KeyMappingEntry::new(Key::Ascii(0x38u8), Key::Special(KeySpecial::Up)),
        97 => KeyMappingEntry::new(Key::Ascii(0x39u8), Key::Special(KeySpecial::PageUp)),
        98 => KeyMappingEntry::new(Key::Ascii(0x30u8), Key::Special(KeySpecial::Insert)),
        99 => KeyMappingEntry::new(Key::Ascii(0x2Eu8), Key::Special(KeySpecial::Delete)),
        100 => KeyMappingEntry::new(Key::Special(KeySpecial::NoKey), Key::Special(KeySpecial::NoKey)),
        101 => KeyMappingEntry::new(Key::Special(KeySpecial::NoKey), Key::Special(KeySpecial::NoKey)),
        102 => KeyMappingEntry::new(Key::Ascii(0x3Du8), Key::Ascii(0x3Du8)),
        _ => KeyMappingEntry::new(Key::Special(KeySpecial::NoKey), Key::Special(KeySpecial::NoKey)),
    })
}

/// A raw key code of some keyboard kind.
pub trait Keycode {
    /// The code names an entry of its table.
    spec fn valid(&self) -> bool;
    spec fn spec_alpha(&self) -> bool;
    spec fn spec_num_pad(&self) -> bool;

    fn is_alpha(&self) -> (r: bool)
        requires
            self.valid(),
        ensures
            r == self.spec_alpha(),
    ;

    fn is_common_num(&self) -> (r: bool)
        requires
            self.valid(),
    ;

    fn is_num_pad(&self) -> (r: bool)
        ensures
            r == self.spec_num_pad(),
    ;
}

/// The state of the lock keys.
#[derive(Clone, Copy)]
pub struct KeyboardManager {
    pub capslock: bool,
    pub numlock: bool,
    pub scrolllock: bool,
}

/// Whether a key takes its combined meaning.
pub open spec fn combined_spec(m: KeyboardManager, alpha: bool, num_pad: bool, shift_pressed: bool) -> bool {
    if alpha {
        m.capslock != shift_pressed
    } else if num_pad {
        m.numlock
    } else {
        shift_pressed
    }
}

/// The lock state after `key` goes down: each lock key toggles its lock.
pub open spec fn after_key(m: KeyboardManager, key: Key) -> KeyboardManager {
    match key {
        Key::Special(KeySpecial::CapsLock) => KeyboardManager { capslock: !m.capslock, ..m },
        Key::Special(KeySpecial::NumLock) => KeyboardManager { numlock: !m.numlock, ..m },
        Key::Special(KeySpecial::ScrollLock) => KeyboardManager { scrolllock: !m.scrolllock, ..m },
        _ => m,
    }
}

impl KeyboardManager {
    /// All locks off.
    pub fn new() -> (r: Self)
        ensures
            !r.capslock && !r.numlock && !r.scrolllock,
    {
        Self { capslock: false, numlock: false, scrolllock: false }
    }

    /// Letters take their combined meaning when exactly one of caps lock and
    /// shift is on, keypad keys when num lock is on, other keys with shift.
    pub fn is_combined_code<K: Keycode>(&self, keycode: K, shift_pressed: bool) -> (r: bool)
        requires
            keycode.valid(),
        ensures
            r == combined_spec(*self, keycode.spec_alpha(), keycode.spec_num_pad(), shift_pressed),
    {
        if keycode.is_alpha() {
            self.capslock ^ shift_pressed
        } else if keycode.is_num_pad() {
            self.numlock
        } else {
            shift_pressed
        }
    }

    /// Toggles the lock that a lock key names.
    pub fn update_key_status(&mut self, key: &Key)
        ensures
            *final(self) == after_key(*old(self), *key),
    {
        if let Key::Special(key_sp) = key {
            match key_sp {
                KeySpecial::CapsLock => {
                    self.capslock = self.capslock ^ true;
                },
                KeySpecial::NumLock => {
                    self.numlock = self.numlock ^ true;
                },
                KeySpecial::ScrollLock => {
                    self.scrolllock = self.scrolllock ^ true;
                },
                _ => {},
            }
        }
    }
}

/// A PS/2 scan code (set 1): bit 7 and the down code in bits 0 to 6.
#[derive(Clone, Copy)]
pub struct ScanCode(pub u8);

impl ScanCode {
    pub open spec fn spec_down(&self) -> u8 {
        self.0 & 0x7F
    }

    pub fn down_scan_code(&self) -> (r: u8)
        ensures
            r == self.spec_down(),
    {
        self.0 & 0x7F
    }

    /// Bit 7 of the code.
    pub fn is_down(&self) -> (r: bool)
        ensures
            r == (self.0 & 0x80 != 0),
    {
        (self.0 & 0x80) != 0
    }
}

impl Keycode for ScanCode {
    open spec fn valid(&self) -> bool {
        self.spec_down() < PS2_KEY_MAPPING_COUNT
    }

    open spec fn spec_alpha(&self) -> bool {
        ps2_mapping(self.spec_down()).0.spec_is_alpha()
    }

    open spec fn spec_num_pad(&self) -> bool {
        71 <= self.0 <= 83
    }

    /// The code's normal key is a letter.
    fn is_alpha(&self) -> (r: bool) {
        let down_scan_code = self.down_scan_code();
        let resolved_code = ps2_key_mapping(down_scan_code).normal();
        resolved_code.is_alpha()
    }

    /// Codes 2 to 53 that are not letters.
    fn is_common_num(&self) -> (r: bool)
        ensures
            r == ((2 <= self.0 <= 53) && !self.spec_alpha()),
    {
        ((2 <= self.0) && (53 >= self.0)) && !self.is_alpha()
    }

    fn is_num_pad(&self) -> (r: bool) {
        (71 <= self.0) && (83 >= self.0)
    }
}

/// A USB HID keyboard usage ID.
#[derive(Clone, Copy)]
pub struct USBKeycode(pub u8);

impl Keycode for USBKeycode {
    open spec fn valid(&self) -> bool {
        true
    }

    open spec fn spec_alpha(&self) -> bool {
        0x04 <= self.0 <= 0x1D
    }

    open spec fn spec_num_pad(&self) -> bool {
        0x59 <= self.0 <= 0x63
    }

    fn is_alpha(&self) -> (r: bool) {
        self.0 >= 0x04 && self.0 <= 0x1D
    }

    fn is_common_num(&self) -> (r: bool)
        ensures
            r == (0x1E <= self.0 <= 0x27),
    {
        self.0 >= 0x1E && self.0 <= 0x27
    }

    fn is_num_pad(&self) -> (r: bool) {
        self.0 >= 0x59 && self.0 <= 0x63
    }
}

/// Decodes PS/2 scan codes into keys.
pub struct PS2KeyboardDriver {
    pub manager: KeyboardManager,
    pub skip_count_for_pause: usize,
    pub shift_pressed: bool,
    pub extended_code: bool,
}

/// The key a PS/2 scan code stands for, given the lock state and shift.
pub open spec fn ps2_key(m: KeyboardManager, code: ScanCode, shift_pressed: bool) -> Key {
    let entry = ps2_mapping(code.spec_down());
    if combined_spec(m, code.spec_alpha(), code.spec_num_pad(), shift_pressed) { entry.1 } else { entry.0 }
}

impl PS2KeyboardDriver {
    /// A driver with all locks off and no key held.
    pub fn new() -> (r: Self)
        ensures
            !r.manager.capslock && !r.manager.numlock && !r.manager.scrolllock,
            r.skip_count_for_pause == 0,
            !r.shift_pressed,
            !r.extended_code,
    {
        Self {
            manager: KeyboardManager::new(),
            skip_count_for_pause: 0,
            shift_pressed: false,
            extended_code: false,
        }
    }

    /// Turns a scan code into a key and the state of bit 7 of the code.
    /// While bytes of a pause sequence are being skipped, or on the prefix
    /// of an extended code, there is no key (`Err`).
    pub fn scan_code_to_ascii(&mut self, scan_code: ScanCode) -> (r: Result<(Key, bool), ()>)
        requires
            old(self).skip_count_for_pause == 0 ==> scan_code.valid(),
        ensures
            old(self).skip_count_for_pause > 0 ==> r is Err && *final(self) == (PS2KeyboardDriver {
                skip_count_for_pause: (old(self).skip_count_for_pause - 1) as usize, ..*old(self) }),
            old(self).skip_count_for_pause == 0 ==> {
                let key = ps2_key(old(self).manager, scan_code, old(self).shift_pressed);
                let down = scan_code.0 & 0x80 != 0;
                &&& r == Ok::<(Key, bool), ()>((key, down))
                &&& final(self).manager == (if down { after_key(old(self).manager, key) } else { old(self).manager })
                &&& final(self).shift_pressed == (if key == Key::Special(KeySpecial::Lshift)
                    || key == Key::Special(KeySpecial::Rshift) { down } else { old(self).shift_pressed })
                &&& final(self).skip_count_for_pause == 0
                &&& !final(self).extended_code
            },
    {
        let down_scan_code = scan_code.down_scan_code();
        if self.skip_count_for_pause > 0 {
            self.skip_count_for_pause = self.skip_count_for_pause - 1;
            return Err(());
        }
        if down_scan_code == 0xE1 {
            self.skip_count_for_pause = 3;
            return Ok((Key::Special(KeySpecial::Pause), true));
        } else if down_scan_code == 0xE0 {
            self.extended_code = true;
            return Err(());
        }
        let entry = ps2_key_mapping(down_scan_code);
        let key = if self.manager.is_combined_code(scan_code, self.shift_pressed) {
            entry.combined()
        } else {
            entry.normal()
        };
        if self.extended_code {
            self.extended_code = false;
        }
        if scan_code.is_down() {
            self.manager.update_key_status(&key);
        }
        if let Key::Special(special_key) = key {
            if special_key == KeySpecial::Lshift || special_key == KeySpecial::Rshift {
                self.shift_pressed = scan_code.is_down();
            }
        }
        Ok((key, scan_code.is_down()))
    }

    /// The key and its state for one byte from the keyboard, if the byte
    /// completes one.
    pub fn on_data_received(&mut self, key_code: u8) -> (r: Option<(Key, bool)>)
        requires
            old(self).skip_count_for_pause == 0 ==> ScanCode(key_code).valid(),
        ensures
            old(self).skip_count_for_pause > 0 ==> r is None,
            old(self).skip_count_for_pause == 0 ==> r == Some((
                ps2_key(old(self).manager, ScanCode(key_code), old(self).shift_pressed),
                key_code & 0x80 != 0)),
    {
        match self.scan_code_to_ascii(ScanCode(key_code)) {
            Ok(pair) => Some(pair),
            Err(_) => None,
        }
    }
}

/// The key a USB usage ID stands for in a report whose modifier byte is
/// `modifiers`.
pub open spec fn usb_key(m: KeyboardManager, code: u8, modifiers: u8) -> Key {
    if code >= USB_KEY_MAPPING_COUNT {
        Key::Special(KeySpecial::NoKey)
    } else {
        let entry = usb_mapping(code);
        let shift = modifiers & (COMBINE_KEY_LSHIFT | COMBINE_KEY_RSHIFT) != 0;
        if combined_spec(m, 0x04 <= code <= 0x1D, 0x59 <= code <= 0x63, shift) { entry.1 } else { entry.0 }
    }
}

pub const COMBINE_KEY_LSHIFT: u8 = 0b0000_0010;
pub const COMBINE_KEY_RSHIFT: u8 = 0b0010_0000;

/// The usage IDs of a report (bytes 2 to 7) that were not in the previous
/// report, in report order.
pub open spec fn new_codes(data: Seq<u8>, prev: Seq<u8>) -> Seq<u8> {
    data.subrange(2, 8).filter(|c: u8| !prev.subrange(2, 8).contains(c))
}

/// Decodes USB HID boot-protocol keyboard reports.
#[derive(Clone, Copy)]
pub struct USBKeyboardDriver {
    pub prev_buff: [u8; 8],
    pub data_buff: [u8; 8],
    pub manager: KeyboardManager,
}

impl USBKeyboardDriver {
    /// A driver with empty reports and all locks off.
    pub fn new() -> (r: Self)
        ensures
            forall|i: int| 0 <= i < 8 ==> r.prev_buff@[i] == 0 && r.data_buff@[i] == 0,
            !r.manager.capslock && !r.manager.numlock && !r.manager.scrolllock,
    {
        Self { prev_buff: [0u8; 8], data_buff: [0u8; 8], manager: KeyboardManager::new() }
    }

    /// Stores the report the controller delivered.
    pub fn set_report(&mut self, report: [u8; 8])
        ensures
            final(self).data_buff == report,
            final(self).prev_buff == old(self).prev_buff,
            final(self).manager == old(self).manager,
    {
        self.data_buff = report;
    }

    /// The keys pressed since the previous report; the current report
    /// becomes the previous one.
    pub fn keycodes(&mut self) -> (r: Vec<Key>)
        ensures
            r@ == new_codes(old(self).data_buff@, old(self).prev_buff@).map_values(
                |c: u8| usb_key(old(self).manager, c, old(self).data_buff@[0])),
            final(self).prev_buff == old(self).data_buff,
            final(self).data_buff == old(self).data_buff,
            final(self).manager == old(self).manager,
    {
        let ghost data = self.data_buff@;
        let ghost prev = self.prev_buff@;
        let mut pressed: Vec<Key> = Vec::new();
        let mut i: usize = 2;
        while i < 8
            invariant
                2 <= i <= 8,
                self.data_buff@ == data,
                self.prev_buff@ == prev,
                self.manager == old(self).manager,
                data == old(self).data_buff@,
                pressed@ == data.subrange(2, i as int).filter(|c: u8| !prev.subrange(2, 8).contains(c)).map_values(
                    |c: u8| usb_key(self.manager, c, data[0])),
            decreases 8 - i,
        {
            let code = self.data_buff[i];
            let mut seen = false;
            let mut j: usize = 2;
            while j < 8
                invariant
                    2 <= j <= 8,
                    self.prev_buff@ == prev,
                    seen == prev.subrange(2, j as int).contains(code),
                decreases 8 - j,
            {
                proof {
                    assert(prev.subrange(2, j + 1) =~= prev.subrange(2, j as int).push(prev[j as int]));
                    lemma_contains_push(prev.subrange(2, j as int), prev[j as int], code);
                }
                if self.prev_buff[j] == code {
                    seen = true;
                }
                j = j + 1;
            }
            proof {
                assert(prev.subrange(2, 8) =~= prev.subrange(2, j as int));
                let s0 = data.subrange(2, i as int);
                let s1 = data.subrange(2, i + 1);
                assert(s1 =~= s0.push(code));
                lemma_filter_push(s0, |c: u8| !prev.subrange(2, 8).contains(c), code);
            }
            if !seen {
                let key = self.keycode(code);
                pressed.push(key);
            }
            i = i + 1;
        }
        proof {
            assert(data.subrange(2, 8) =~= data.subrange(2, i as int));
        }
        self.prev_buff = self.data_buff;
        pressed
    }

    fn keycode(&self, keycode: u8) -> (r: Key)
        ensures
            r == usb_key(self.manager, keycode, self.data_buff@[0]),
    {
        match usb_key_mapping(keycode) {
            Some(entry) => {
                let shift_pressed = self.data_buff[0] & (COMBINE_KEY_LSHIFT | COMBINE_KEY_RSHIFT) != 0;
                let keyboard_status = self.manager.is_combined_code(USBKeycode(keycode), shift_pressed);
                if keyboard_status {
                    entry.combined()
                } else {
                    entry.normal()
                }
            },
            None => Key::Special(KeySpecial::NoKey),
        }
    }

    /// Handles a delivered report: the newly pressed keys, each with the
    /// report's modifier byte; lock keys among them toggle their locks.
    pub fn on_data_received(&mut self) -> (r: Vec<(u8, Key)>)
        ensures
            r@ == new_codes(old(self).data_buff@, old(self).prev_buff@).map_values(
                |c: u8| (old(self).data_buff@[0], usb_key(old(self).manager, c, old(self).data_buff@[0]))),
            final(self).prev_buff == old(self).data_buff,
            final(self).manager == keys_after(old(self).manager, new_codes(old(self).data_buff@, old(self).prev_buff@).map_values(
                |c: u8| usb_key(old(self).manager, c, old(self).data_buff@[0]))),
    {
        let keys = self.keycodes();
        let mut out: Vec<(u8, Key)> = Vec::new();
        let mut i: usize = 0;
        let ghost m0 = self.manager;
        while i < keys.len()
            invariant
                i <= keys@.len(),
                self.data_buff == old(self).data_buff,
                self.prev_buff == old(self).data_buff,
                self.manager == keys_after(m0, keys@.subrange(0, i as int)),
                out@ == keys@.subrange(0, i as int).map_values(|k: Key| (old(self).data_buff@[0], k)),
            decreases keys@.len() - i,
        {
            let key = keys[i];
            self.manager.update_key_status(&key);
            out.push((self.data_buff[0], key));
            proof {
                assert(keys@.subrange(0, i + 1).drop_last() =~= keys@.subrange(0, i as int));
                assert(out@ =~= keys@.subrange(0, i + 1).map_values(|k: Key| (old(self).data_buff@[0], k)));
            }
            i = i + 1;
        }
        proof {
            assert(keys@.subrange(0, i as int) =~= keys@);
            assert(out@ =~= new_codes(old(self).data_buff@, old(self).prev_buff@).map_values(
                |c: u8| (old(self).data_buff@[0], usb_key(old(self).manager, c, old(self).data_buff@[0]))));
        }
        out
    }

    /// Address and length of the report buffer, for the transfer ring.
    pub fn data_buffer_len(&self) -> (r: u32)
        ensures
            r == 8,
    {
        8
    }
}

/// A sequence with one more element contains what it contained and the
/// new element.
pub proof fn lemma_contains_push<A>(s: Seq<A>, x: A, v: A)
    ensures
        s.push(x).contains(v) == (s.contains(v) || x == v),
{
    if s.contains(v) {
        let k = choose|k: int| 0 <= k < s.len() && s[k] == v;
        assert(s.push(x)[k] == v);
    }
    if x == v {
        assert(s.push(x)[s.len() as int] == v);
    }
    if s.push(x).contains(v) {
        let k = choose|k: int| 0 <= k < s.push(x).len() && s.push(x)[k] == v;
        if k < s.len() {
            assert(s[k] == v);
        }
    }
}

/// Filtering a sequence with one more element at its end.
pub proof fn lemma_filter_push<A>(s: Seq<A>, pred: spec_fn(A) -> bool, x: A)
    ensures
        s.push(x).filter(pred) == (if pred(x) { s.filter(pred).push(x) } else { s.filter(pred) }),
{
    reveal_with_fuel(Seq::filter, 1);
    assert(s.push(x).drop_last() =~= s);
}

/// The lock state after each key of `keys` has gone down, in order.
pub open spec fn keys_after(m: KeyboardManager, keys: Seq<Key>) -> KeyboardManager
    decreases keys.len(),
{
    if keys.len() == 0 {
        m
    } else {
        after_key(keys_after(m, keys.drop_last()), keys.last())
    }
}

/// The keyboard: hands out its drivers.
pub struct Keyboard {}

impl Keyboard {
    pub fn new() -> (r: Self) {
        Self {}
    }

    /// A USB keyboard driver in its initial state.
    pub fn usb(&self) -> (r: USBKeyboardDriver)
        ensures
            forall|i: int| 0 <= i < 8 ==> r.prev_buff@[i] == 0 && r.data_buff@[i] == 0,
            !r.manager.capslock && !r.manager.numlock && !r.manager.scrolllock,
    {
        USBKeyboardDriver::new()
    }
}

/// The first printable key waiting in the queue: the keys before it are
/// dropped, and it is taken out. `None` when no printable key waits; the
/// queue is then empty.
pub fn pop_ascii(queue: &mut Queue<Key>) -> (r: Option<u8>)
    requires
        old(queue).wf(),
    ensures
        final(queue).wf(),
        final(queue).capacity() == old(queue).capacity(),
        r is None ==> final(queue)@.len() == 0 && forall|j: int| 0 <= j < old(queue)@.len() ==> old(queue)@[j] is Special,
        r matches Some(c) ==> exists|k: int| {
            &&& 0 <= k < old(queue)@.len()
            &&& #[trigger] old(queue)@[k] == Key::Ascii(c)
            &&& forall|j: int| 0 <= j < k ==> old(queue)@[j] is Special
            &&& final(queue)@ == old(queue)@.subrange(k + 1, old(queue)@.len() as int)
        },
{
    let ghost keys = old(queue)@;
    let ghost mut i: int = 0;
    loop
        invariant
            queue.wf(),
            queue.capacity() == old(queue).capacity(),
            keys == old(queue)@,
            0 <= i <= keys.len(),
            queue@ == keys.subrange(i, keys.len() as int),
            forall|j: int| 0 <= j < i ==> keys[j] is Special,
        decreases queue@.len(),
    {
        match queue.dequeue() {
            Ok(Key::Ascii(c)) => {
                assert(keys[i] == Key::Ascii(c));
                assert(queue@ =~= keys.subrange(i + 1, keys.len() as int));
                return Some(c);
            },
            Ok(Key::Special(_)) => {
                proof {
                    i = i + 1;
                }
                assert(queue@ =~= keys.subrange(i, keys.len() as int));
            },
            Err(_) => {
                return None;
            },
        }
    }
}

/// Law: each letter key of the US layout decodes to its own letter. PS/2
/// scan code set 1 numbers the letter rows from Q (10h), A (1Eh) and Z
/// (2Ch); a letter is lower case alone and upper case combined, and it comes
/// out upper case exactly when caps lock and shift differ, for the press
/// and the release code alike.
pub proof fn law_ps2_letter_keys(code: u8, m: KeyboardManager, shift_pressed: bool)
    requires
        0x10 <= code <= 0x19 || 0x1E <= code <= 0x26 || 0x2C <= code <= 0x32,
    ensures
        ({
            // q w e r t y u i o p
            let top = seq![0x71u8, 0x77u8, 0x65u8, 0x72u8, 0x74u8, 0x79u8, 0x75u8, 0x69u8, 0x6Fu8, 0x70u8];
            // a s d f g h j k l
            let home = seq![0x61u8, 0x73u8, 0x64u8, 0x66u8, 0x67u8, 0x68u8, 0x6Au8, 0x6Bu8, 0x6Cu8];
            // z x c v b n m
            let bottom = seq![0x7Au8, 0x78u8, 0x63u8, 0x76u8, 0x62u8, 0x6Eu8, 0x6Du8];
            let lower = if code <= 0x19 { top[code - 0x10] } else if code <= 0x26 { home[code - 0x1E] } else { bottom[code - 0x2C] };
            let upper = (lower - 0x20) as u8;
            let expected = Key::Ascii(if m.capslock != shift_pressed { upper } else { lower });
            &&& ps2_mapping(code) == (Key::Ascii(lower), Key::Ascii(upper))
            &&& ps2_key(m, ScanCode(code), shift_pressed) == expected
            &&& ps2_key(m, ScanCode(code | 0x80), shift_pressed) == expected
        }),
{
    assert(code & 0x7F == code && (code | 0x80) & 0x7F == code) by (bit_vector)
        requires code < 0x80;
}

/// Law: the HID usage IDs 04h to 1Dh are the letters a to z in order; a
/// letter is lower case alone and upper case combined, and it comes out
/// upper case exactly when caps lock and a shift key differ.
pub proof fn law_usb_letter_keys(code: u8, m: KeyboardManager, modifiers: u8)
    requires
        0x04 <= code <= 0x1D,
    ensures
        ({
            let lower = (0x61 + code - 0x04) as u8;
            let upper = (0x41 + code - 0x04) as u8;
            let shift = modifiers & 0x02 != 0 || modifiers & 0x20 != 0;
            &&& usb_mapping(code) == (Key::Ascii(lower), Key::Ascii(upper))
            &&& usb_key(m, code, modifiers) == Key::Ascii(if m.capslock != shift { upper } else { lower })
        }),
{
    assert((modifiers & (0x02u8 | 0x20u8) != 0) == (modifiers & 0x02 != 0 || modifiers & 0x20 != 0)) by (bit_vector);
}

/// Law: the digit keys of the US layout's top row, PS/2 scan codes 02h
/// (1) to 0Bh (0) and HID usage IDs 1Eh (1) to 27h (0), decode to their
/// digits alone and to the symbols above them with shift; caps lock does not
/// touch them. The space bar (39h, 2Ch) is a space either way.
pub proof fn law_digit_and_space_keys(index: int, m: KeyboardManager, shift_pressed: bool, modifiers: u8)
    requires
        0 <= index < 10,
    ensures
        ({
            // 1 2 3 4 5 6 7 8 9 0
            let digits = seq![0x31u8, 0x32u8, 0x33u8, 0x34u8, 0x35u8, 0x36u8, 0x37u8, 0x38u8, 0x39u8, 0x30u8];
            // ! @ # $ % ^ & * ( )
            let symbols = seq![0x21u8, 0x40u8, 0x23u8, 0x24u8, 0x25u8, 0x5Eu8, 0x26u8, 0x2Au8, 0x28u8, 0x29u8];
            let ps2_code = (0x02 + index) as u8;
            let usb_code = (0x1E + index) as u8;
            let shift = modifiers & 0x02 != 0 || modifiers & 0x20 != 0;
            &&& ps2_mapping(ps2_code) == (Key::Ascii(digits[index]), Key::Ascii(symbols[index]))
            &&& usb_mapping(usb_code) == (Key::Ascii(digits[index]), Key::Ascii(symbols[index]))
            &&& ps2_key(m, ScanCode(ps2_code), shift_pressed) == Key::Ascii(if shift_pressed { symbols[index] } else { digits[index] })
            &&& usb_key(m, usb_code, modifiers) == Key::Ascii(if shift { symbols[index] } else { digits[index] })
            &&& ps2_key(m, ScanCode(0x39), shift_pressed) == Key::Ascii(0x20)
            &&& usb_key(m, 0x2C, modifiers) == Key::Ascii(0x20)
        }),
{
    let c = (0x02 + index) as u8;
    assert(c & 0x7F == c) by (bit_vector)
        requires c < 0x80;
    assert(0x39u8 & 0x7F == 0x39) by (bit_vector);
    assert((modifiers & (0x02u8 | 0x20u8) != 0) == (modifiers & 0x02 != 0 || modifiers & 0x20 != 0)) by (bit_vector);
}

/// Law: the punctuation keys of the US layout decode to their characters
/// alone and to the ones above them with shift, on PS/2 and USB alike:
/// minus and underscore, equals and plus, the brackets and braces,
/// backslash and bar, semicolon and colon, quote and double quote, grave
/// and tilde, comma and less-than, full stop and greater-than, slash and
/// question mark.
pub proof fn law_punctuation_keys(index: int, m: KeyboardManager, shift_pressed: bool, modifiers: u8)
    requires
        0 <= index < 11,
    ensures
        ({
            let ps2_codes = seq![0x0Cu8, 0x0Du8, 0x1Au8, 0x1Bu8, 0x2Bu8, 0x27u8, 0x28u8, 0x29u8, 0x33u8, 0x34u8, 0x35u8];
            let usb_codes = seq![0x2Du8, 0x2Eu8, 0x2Fu8, 0x30u8, 0x31u8, 0x33u8, 0x34u8, 0x35u8, 0x36u8, 0x37u8, 0x38u8];
            let normal = seq![0x2Du8, 0x3Du8, 0x5Bu8, 0x5Du8, 0x5Cu8, 0x3Bu8, 0x27u8, 0x60u8, 0x2Cu8, 0x2Eu8, 0x2Fu8];
            let shifted = seq![0x5Fu8, 0x2Bu8, 0x7Bu8, 0x7Du8, 0x7Cu8, 0x3Au8, 0x22u8, 0x7Eu8, 0x3Cu8, 0x3Eu8, 0x3Fu8];
            let shift = modifiers & 0x02 != 0 || modifiers & 0x20 != 0;
            &&& ps2_mapping(ps2_codes[index]) == (Key::Ascii(normal[index]), Key::Ascii(shifted[index]))
            &&& usb_mapping(usb_codes[index]) == (Key::Ascii(normal[index]), Key::Ascii(shifted[index]))
            &&& ps2_key(m, ScanCode(ps2_codes[index]), shift_pressed)
                == Key::Ascii(if shift_pressed { shifted[index] } else { normal[index] })
            &&& usb_key(m, usb_codes[index], modifiers) == Key::Ascii(if shift { shifted[index] } else { normal[index] })
        }),
{
    let ps2_codes = seq![0x0Cu8, 0x0Du8, 0x1Au8, 0x1Bu8, 0x2Bu8, 0x27u8, 0x28u8, 0x29u8, 0x33u8, 0x34u8, 0x35u8];
    let c = ps2_codes[index];
    assert(c & 0x7F == c) by (bit_vector)
        requires c < 0x80;
    assert((modifiers & (0x02u8 | 0x20u8) != 0) == (modifiers & 0x02 != 0 || modifiers & 0x20 != 0)) by (bit_vector);
}

/// Law: the control keys decode to themselves whatever the shift and lock
/// state: Esc, Backspace, Tab and Enter on PS/2 (01h, 0Eh, 0Fh, 1Ch) and USB
/// (29h, 2Ah, 2Bh, 28h).
pub proof fn law_control_keys(m: KeyboardManager, shift_pressed: bool, modifiers: u8)
    ensures
        ps2_key(m, ScanCode(0x01), shift_pressed) == Key::Special(KeySpecial::Esc),
        ps2_key(m, ScanCode(0x0E), shift_pressed) == Key::Special(KeySpecial::Backspace),
        ps2_key(m, ScanCode(0x0F), shift_pressed) == Key::Special(KeySpecial::Tab),
        ps2_key(m, ScanCode(0x1C), shift_pressed) == Key::Special(KeySpecial::Enter),
        usb_key(m, 0x29, modifiers) == Key::Special(KeySpecial::Esc),
        usb_key(m, 0x2A, modifiers) == Key::Special(KeySpecial::Backspace),
        usb_key(m, 0x2B, modifiers) == Key::Special(KeySpecial::Tab),
        usb_key(m, 0x28, modifiers) == Key::Special(KeySpecial::Enter),
{
    assert(0x01u8 & 0x7F == 0x01 && 0x0Eu8 & 0x7F == 0x0E && 0x0Fu8 & 0x7F == 0x0F && 0x1Cu8 & 0x7F == 0x1C) by (bit_vector);
}

} // verus!
