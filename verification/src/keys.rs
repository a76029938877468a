//! Translation of host keyboard keys to the 16 logical key codes: the
//! `1234 / qwer / asdf / zxcv` block stands for the 4x4 CHIP-8 keypad.
use vstd::prelude::*;
use vstd::string::StrSliceExecFns;

verus! {

/// The key code a single character stands for, if any.
pub open spec fn key_code(c: char) -> Option<usize> {
    if c == '1' {
        Some(0x1)
    } else if c == '2' {
        Some(0x2)
    } else if c == '3' {
        Some(0x3)
    } else if c == '4' {
        Some(0xC)
    } else if c == 'q' {
        Some(0x4)
    } else if c == 'w' {
        Some(0x5)
    } else if c == 'e' {
        Some(0x6)
    } else if c == 'r' {
        Some(0xD)
    } else if c == 'a' {
        Some(0x7)
    } else if c == 's' {
        Some(0x8)
    } else if c == 'd' {
        Some(0x9)
    } else if c == 'f' {
        Some(0xE)
    } else if c == 'z' {
        Some(0xA)
    } else if c == 'x' {
        Some(0x0)
    } else if c == 'c' {
        Some(0xB)
    } else if c == 'v' {
        Some(0xF)
    } else {
        None
    }
}

/// The key code a key name stands for: a single mapped character; any other
/// name stands for no key.
pub open spec fn spec_key2btn(s: Seq<char>) -> Option<usize> {
    if s.len() == 1 {
        key_code(s[0])
    } else {
        None
    }
}

/// Translates a host key name to its logical key code.  Every returned code
/// is below 16.
pub fn key2btn(key: &str) -> (r: Option<usize>)
    ensures
        r == spec_key2btn(key@),
        r is Some ==> r->0 < 16,
{
    if key.unicode_len() != 1 {
        return None;
    }
    let c = key.get_char(0);
    if c == '1' {
        Some(0x1)
    } else if c == '2' {
        Some(0x2)
    } else if c == '3' {
        Some(0x3)
    } else if c == '4' {
        Some(0xC)
    } else if c == 'q' {
        Some(0x4)
    } else if c == 'w' {
        Some(0x5)
    } else if c == 'e' {
        Some(0x6)
    } else if c == 'r' {
        Some(0xD)
    } else if c == 'a' {
        Some(0x7)
    } else if c == 's' {
        Some(0x8)
    } else if c == 'd' {
        Some(0x9)
    } else if c == 'f' {
        Some(0xE)
    } else if c == 'z' {
        Some(0xA)
    } else if c == 'x' {
        Some(0x0)
    } else if c == 'c' {
        Some(0xB)
    } else if c == 'v' {
        Some(0xF)
    } else {
        None
    }
}

} // verus!
