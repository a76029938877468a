//! A CHIP-8 virtual machine core: a fetch-decode-execute interpreter over a
//! 4096-byte memory, sixteen 8-bit data registers, a 16-entry call stack, a
//! 64x32 monochrome frame buffer, a 16-key input state and two countdown
//! timers.  The host drives the core one instruction or one timer tick at a
//! time; the core never schedules itself and performs no I/O.
use vstd::prelude::*;

pub mod decode;
pub mod draw;
pub mod emulator;
pub mod keys;
pub mod laws;

verus! {

/// Size of the byte-addressable memory.
pub const RAM_SIZE: usize = 4096;

/// Width of the display in pixels.
pub const SCREEN_WIDTH: usize = 64;

/// Height of the display in pixels.
pub const SCREEN_HEIGHT: usize = 32;

/// Number of pixels in the display buffer.
pub const SCREEN_SIZE: usize = 2048;

/// Number of 8-bit data registers.
pub const NUM_REGS: usize = 16;

/// Depth of the call stack.
pub const STACK_SIZE: usize = 16;

/// Number of keys on the input device.
pub const NUM_KEYS: usize = 16;

/// Address at which loaded programs begin, and initial program counter.
pub const START_ADDR: u16 = 0x200;

/// Address at which the built-in font set is stored.
pub const FONT_ADDR: usize = 0x50;

/// Number of bytes in the built-in font set: 16 glyphs of 5 bytes each.
pub const FONT_BYTES: usize = 80;

/// Errors surfaced by the core.  Every error is reported synchronously as the
/// result of the triggering call; none is silently swallowed.
#[derive(Clone, Copy, Debug, PartialEq, Eq, Structural)]
pub enum Chip8Error {
    /// The fetched 16-bit word matches no defined instruction pattern.
    UnknownOpcode(u16),
    /// A subroutine call would push a seventeenth return address.
    StackOverflow,
    /// A return was executed with an empty call stack.
    StackUnderflow,
    /// A memory access or instruction fetch fell outside `0x000..=0xFFF`.
    OutOfBoundsAccess,
    /// A program larger than the available program space was loaded.
    CapacityExceeded,
}

} // verus!
