//! Translating PS/2 set-1 scancodes to characters, with the left shift key.
use vstd::prelude::*;

verus! {

pub const LEFT_SHIFT_PRESS: u8 = 0x2A;
pub const LEFT_SHIFT_RELEASE: u8 = 0xAA;

/// The character of a key without shift ('\0' for keys without one).
pub open spec fn base_key(scancode: u8) -> char {
    match scancode {
        0x01 => '\x1B',
        0x02 => '1',
        0x03 => '2',
        0x04 => '3',
        0x05 => '4',
        0x06 => '5',
        0x07 => '6',
        0x08 => '7',
        0x09 => '8',
        0x0A => '9',
        0x0B => '0',
        0x0C => '-',
        0x0D => '=',
        0x0E => '\x08',
        0x0F => '\t',
        0x10 => 'q',
        0x11 => 'w',
        0x12 => 'e',
        0x13 => 'r',
        0x14 => 't',
        0x15 => 'y',
        0x16 => 'u',
        0x17 => 'i',
        0x18 => 'o',
        0x19 => 'p',
        0x1A => '[',
        0x1B => ']',
        0x1C => '\n',
        0x1E => 'a',
        0x1F => 's',
        0x20 => 'd',
        0x21 => 'f',
        0x22 => 'g',
        0x23 => 'h',
        0x24 => 'j',
        0x25 => 'k',
        0x26 => 'l',
        0x27 => ';',
        0x28 => '\'',
        0x29 => '`',
        0x2B => '\\',
        0x2C => 'z',
        0x2D => 'x',
        0x2E => 'c',
        0x2F => 'v',
        0x30 => 'b',
        0x31 => 'n',
        0x32 => 'm',
        0x33 => ',',
        0x34 => '.',
        0x35 => '/',
        0x39 => ' ',
        _ => '\0',
    }
}

/// The symbol a key gives with shift, where it differs from an upper-case letter.
pub open spec fn shift_symbol(scancode: u8) -> char {
    match scancode {
        0x02 => '!',
        0x03 => '@',
        0x04 => '#',
        0x05 => '$',
        0x06 => '%',
        0x07 => '^',
        0x08 => '&',
        0x09 => '*',
        0x0A => '(',
        0x0B => ')',
        0x0C => '_',
        0x0D => '+',
        0x1A => '{',
        0x1B => '}',
        0x27 => ':',
        0x28 => '"',
        0x29 => '~',
        0x2B => '|',
        0x33 => '<',
        0x34 => '>',
        0x35 => '?',
        _ => '\0',
    }
}

/// ASCII upper case of a character.
pub open spec fn upper(c: char) -> char {
    if 'a' <= c <= 'z' { ((c as u32) - 32) as char } else { c }
}

/// The character of a key with shift held.
pub open spec fn shifted_key(scancode: u8) -> char {
    if scancode <= 127 {
        if shift_symbol(scancode) != '\0' { shift_symbol(scancode) } else { upper(base_key(scancode)) }
    } else {
        '\0'
    }
}

pub struct Keymap {
    shift_pressed: bool,
}

/// The character of a scancode and the shift state after it, from the shift state before.
pub open spec fn convert_spec(shift: bool, scancode: u8) -> (char, bool) {
    if scancode == LEFT_SHIFT_PRESS {
        ('\0', true)
    } else if scancode == LEFT_SHIFT_RELEASE {
        ('\0', false)
    } else if scancode > 127 {
        ('\0', shift)
    } else if shift {
        (shifted_key(scancode), shift)
    } else {
        (base_key(scancode), shift)
    }
}

/// A key pressed after left shift gives its shifted character, and after shift is released
/// again its plain character, whatever the shift state was before.
pub proof fn lemma_shift_then_key(shift: bool, scancode: u8)
    requires
        scancode <= 127,
        scancode != LEFT_SHIFT_PRESS,
        scancode != LEFT_SHIFT_RELEASE,
    ensures
        convert_spec(convert_spec(shift, LEFT_SHIFT_PRESS).1, scancode).0 == shifted_key(scancode),
        convert_spec(convert_spec(convert_spec(shift, LEFT_SHIFT_PRESS).1, LEFT_SHIFT_RELEASE).1, scancode).0 == base_key(scancode),
{
}

impl View for Keymap {
    type V = bool;

    /// Whether shift is held.
    closed spec fn view(&self) -> bool {
        self.shift_pressed
    }
}

fn base_key_of(scancode: u8) -> (r: char)
    ensures
        r == base_key(scancode),
{
    match scancode {
        0x01 => '\x1B',
        0x02 => '1',
        0x03 => '2',
        0x04 => '3',
        0x05 => '4',
        0x06 => '5',
        0x07 => '6',
        0x08 => '7',
        0x09 => '8',
        0x0A => '9',
        0x0B => '0',
        0x0C => '-',
        0x0D => '=',
        0x0E => '\x08',
        0x0F => '\t',
        0x10 => 'q',
        0x11 => 'w',
        0x12 => 'e',
        0x13 => 'r',
        0x14 => 't',
        0x15 => 'y',
        0x16 => 'u',
        0x17 => 'i',
        0x18 => 'o',
        0x19 => 'p',
        0x1A => '[',
        0x1B => ']',
        0x1C => '\n',
        0x1E => 'a',
        0x1F => 's',
        0x20 => 'd',
        0x21 => 'f',
        0x22 => 'g',
        0x23 => 'h',
        0x24 => 'j',
        0x25 => 'k',
        0x26 => 'l',
        0x27 => ';',
        0x28 => '\'',
        0x29 => '`',
        0x2B => '\\',
        0x2C => 'z',
        0x2D => 'x',
        0x2E => 'c',
        0x2F => 'v',
        0x30 => 'b',
        0x31 => 'n',
        0x32 => 'm',
        0x33 => ',',
        0x34 => '.',
        0x35 => '/',
        0x39 => ' ',
        _ => '\0',
    }
}

fn shift_symbol_of(scancode: u8) -> (r: char)
    ensures
        r == shift_symbol(scancode),
{
    match scancode {
        0x02 => '!',
        0x03 => '@',
        0x04 => '#',
        0x05 => '$',
        0x06 => '%',
        0x07 => '^',
        0x08 => '&',
        0x09 => '*',
        0x0A => '(',
        0x0B => ')',
        0x0C => '_',
        0x0D => '+',
        0x1A => '{',
        0x1B => '}',
        0x27 => ':',
        0x28 => '"',
        0x29 => '~',
        0x2B => '|',
        0x33 => '<',
        0x34 => '>',
        0x35 => '?',
        _ => '\0',
    }
}

fn to_upper(c: char) -> (r: char)
    ensures
        r == upper(c),
{
    if 'a' <= c && c <= 'z' {
        let u = (c as u32) - 32;
        char_from_ascii(u)
    } else {
        c
    }
}

fn char_from_ascii(u: u32) -> (r: char)
    requires
        0x41 <= u <= 0x5A,
    ensures
        r == u as char,
{
    (u as u8) as char
}

impl Keymap {
    /// Shift not held.
    pub fn new() -> (r: Self)
        ensures
            r@ == false,
    {
        Keymap { shift_pressed: false }
    }

    fn shift_pressed(&mut self)
        ensures
            final(self)@ == true,
    {
        self.shift_pressed = true;
    }

    fn shift_released(&mut self)
        ensures
            final(self)@ == false,
    {
        self.shift_pressed = false
    }

    fn shift_convert(&self, scancode: u8) -> (r: char)
        ensures
            r == shifted_key(scancode),
    {
        if scancode <= 127 {
            let simbolo_special = shift_symbol_of(scancode);
            if simbolo_special != '\0' {
                simbolo_special
            } else {
                to_upper(base_key_of(scancode))
            }
        } else {
            '\0'
        }
    }

    /// The character of a scancode: left shift press and release update the shift state and
    /// give '\0'; other key presses give their character, shifted while shift is held; key
    /// releases and unknown keys give '\0'.
    pub fn convert(&mut self, scancode: u8) -> (r: char)
        ensures
            (r, final(self)@) == convert_spec(old(self)@, scancode),
    {
        if scancode == LEFT_SHIFT_PRESS {
            self.shift_pressed();
            '\0'
        } else if scancode == LEFT_SHIFT_RELEASE {
            self.shift_released();
            '\0'
        } else if scancode <= 127 {
            let c = base_key_of(scancode);
            if self.shift_pressed {
                self.shift_convert(scancode)
            } else {
                c
            }
        } else {
            '\0'
        }
    }
}

} // verus!
