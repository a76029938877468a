//! Instruction decoding: a 16-bit opcode is split into its four nibbles and
//! mapped to a tagged instruction carrying its decoded operands.  Decoding is
//! a pure function of the opcode; an opcode matching no defined pattern
//! decodes to [`Instr::Unknown`], which execution reports as an error.
use vstd::prelude::*;

verus! {

/// A decoded instruction.  Operand naming: `x` and `y` are data-register
/// indices (always below 16), `kk` is an immediate byte, `nnn` is a 12-bit
/// address (always below 4096), and `n` is a sprite height (always at most
/// 15).
#[derive(Clone, Copy, Debug, PartialEq, Eq, Structural)]
pub enum Instr {
    /// `00E0`: clear the display.
    Cls,
    /// `00EE`: return from a subroutine.
    Ret,
    /// `1nnn`: jump to `nnn`.
    Jp(u16),
    /// `2nnn`: call the subroutine at `nnn`.
    CallSub(u16),
    /// `3xkk`: skip the next instruction if `Vx == kk`.
    SeImm(u8, u8),
    /// `4xkk`: skip the next instruction if `Vx != kk`.
    SneImm(u8, u8),
    /// `5xy0`: skip the next instruction if `Vx == Vy`.
    SeReg(u8, u8),
    /// `6xkk`: load `kk` into `Vx`.
    LdImm(u8, u8),
    /// `7xkk`: add `kk` to `Vx`, wrapping, without touching the flag.
    AddImm(u8, u8),
    /// `8xy0`: copy `Vy` into `Vx`.
    LdReg(u8, u8),
    /// `8xy1`: bitwise or of `Vx` and `Vy` into `Vx`.
    OrReg(u8, u8),
    /// `8xy2`: bitwise and of `Vx` and `Vy` into `Vx`.
    AndReg(u8, u8),
    /// `8xy3`: bitwise xor of `Vx` and `Vy` into `Vx`.
    XorReg(u8, u8),
    /// `8xy4`: add `Vy` to `Vx`, wrapping; the flag records the carry.
    AddCarry(u8, u8),
    /// `8xy5`: subtract `Vy` from `Vx`, wrapping; the flag is 1 when no
    /// borrow occurred.
    SubBorrow(u8, u8),
    /// `8xy6`: shift `Vx` right by one; the flag records the bit shifted
    /// out.  `y` is ignored.
    Shr(u8),
    /// `8xy7`: set `Vx` to `Vy - Vx`, wrapping; the flag is 1 when no
    /// borrow occurred.
    SubnBorrow(u8, u8),
    /// `8xyE`: shift `Vx` left by one; the flag records the bit shifted
    /// out.  `y` is ignored.
    Shl(u8),
    /// `9xy0`: skip the next instruction if `Vx != Vy`.
    SneReg(u8, u8),
    /// `Annn`: load `nnn` into the index register.
    LdI(u16),
    /// `Bnnn`: jump to `nnn + V0`.
    JpV0(u16),
    /// `Cxkk`: load a pseudo-random byte masked by `kk` into `Vx`.
    Rnd(u8, u8),
    /// `Dxyn`: draw the `n`-row sprite at the index register to
    /// `(Vx mod 64, Vy mod 32)`; the flag records a collision.
    Drw(u8, u8, u8),
    /// `Ex9E`: skip the next instruction if the key named by `Vx` is down.
    Skp(u8),
    /// `ExA1`: skip the next instruction if the key named by `Vx` is up.
    Sknp(u8),
    /// `Fx07`: load the delay timer into `Vx`.
    LdFromDt(u8),
    /// `Fx0A`: wait for a key press and load its code into `Vx`; while no
    /// key is down the program counter re-enters this instruction.
    LdKey(u8),
    /// `Fx15`: load `Vx` into the delay timer.
    LdDt(u8),
    /// `Fx18`: load `Vx` into the sound timer.
    LdSt(u8),
    /// `Fx1E`: add `Vx` to the index register, wrapping.
    AddI(u8),
    /// `Fx29`: point the index register at the font glyph for the low
    /// nibble of `Vx`.
    LdFont(u8),
    /// `Fx33`: store the decimal digits of `Vx` at the index register.
    Bcd(u8),
    /// `Fx55`: dump `V0..=Vx` to memory at the index register.
    StoreV(u8),
    /// `Fx65`: load `V0..=Vx` from memory at the index register.
    LoadV(u8),
    /// Any opcode matching none of the defined patterns.
    Unknown(u16),
}

/// Every operand carried by a decoded instruction lies in its range.
pub open spec fn instr_wf(i: Instr) -> bool {
    match i {
        Instr::Cls => true,
        Instr::Ret => true,
        Instr::Jp(nnn) => nnn < 4096,
        Instr::CallSub(nnn) => nnn < 4096,
        Instr::SeImm(x, _kk) => x < 16,
        Instr::SneImm(x, _kk) => x < 16,
        Instr::SeReg(x, y) => x < 16 && y < 16,
        Instr::LdImm(x, _kk) => x < 16,
        Instr::AddImm(x, _kk) => x < 16,
        Instr::LdReg(x, y) => x < 16 && y < 16,
        Instr::OrReg(x, y) => x < 16 && y < 16,
        Instr::AndReg(x, y) => x < 16 && y < 16,
        Instr::XorReg(x, y) => x < 16 && y < 16,
        Instr::AddCarry(x, y) => x < 16 && y < 16,
        Instr::SubBorrow(x, y) => x < 16 && y < 16,
        Instr::Shr(x) => x < 16,
        Instr::SubnBorrow(x, y) => x < 16 && y < 16,
        Instr::Shl(x) => x < 16,
        Instr::SneReg(x, y) => x < 16 && y < 16,
        Instr::LdI(nnn) => nnn < 4096,
        Instr::JpV0(nnn) => nnn < 4096,
        Instr::Rnd(x, _kk) => x < 16,
        Instr::Drw(x, y, n) => x < 16 && y < 16 && n < 16,
        Instr::Skp(x) => x < 16,
        Instr::Sknp(x) => x < 16,
        Instr::LdFromDt(x) => x < 16,
        Instr::LdKey(x) => x < 16,
        Instr::LdDt(x) => x < 16,
        Instr::LdSt(x) => x < 16,
        Instr::AddI(x) => x < 16,
        Instr::LdFont(x) => x < 16,
        Instr::Bcd(x) => x < 16,
        Instr::StoreV(x) => x < 16,
        Instr::LoadV(x) => x < 16,
        Instr::Unknown(_op) => true,
    }
}

/// The fixed opcode table: which instruction a 16-bit word denotes.
/// The leading nibble together with the trailing byte or nibble fully
/// determines the operation; nothing is ambiguous at runtime.
pub open spec fn spec_decode(op: u16) -> Instr {
    let d1 = op / 0x1000;
    let x = ((op / 0x100) % 16) as u8;
    let y = ((op / 16) % 16) as u8;
    let d4 = op % 16;
    let kk = (op % 256) as u8;
    let nnn = op % 0x1000;
    if op == 0x00E0 {
        Instr::Cls
    } else if op == 0x00EE {
        Instr::Ret
    } else if d1 == 0x1 {
        Instr::Jp(nnn)
    } else if d1 == 0x2 {
        Instr::CallSub(nnn)
    } else if d1 == 0x3 {
        Instr::SeImm(x, kk)
    } else if d1 == 0x4 {
        Instr::SneImm(x, kk)
    } else if d1 == 0x5 && d4 == 0x0 {
        Instr::SeReg(x, y)
    } else if d1 == 0x6 {
        Instr::LdImm(x, kk)
    } else if d1 == 0x7 {
        Instr::AddImm(x, kk)
    } else if d1 == 0x8 && d4 == 0x0 {
        Instr::LdReg(x, y)
    } else if d1 == 0x8 && d4 == 0x1 {
        Instr::OrReg(x, y)
    } else if d1 == 0x8 && d4 == 0x2 {
        Instr::AndReg(x, y)
    } else if d1 == 0x8 && d4 == 0x3 {
        Instr::XorReg(x, y)
    } else if d1 == 0x8 && d4 == 0x4 {
        Instr::AddCarry(x, y)
    } else if d1 == 0x8 && d4 == 0x5 {
        Instr::SubBorrow(x, y)
    } else if d1 == 0x8 && d4 == 0x6 {
        Instr::Shr(x)
    } else if d1 == 0x8 && d4 == 0x7 {
        Instr::SubnBorrow(x, y)
    } else if d1 == 0x8 && d4 == 0xE {
        Instr::Shl(x)
    } else if d1 == 0x9 && d4 == 0x0 {
        Instr::SneReg(x, y)
    } else if d1 == 0xA {
        Instr::LdI(nnn)
    } else if d1 == 0xB {
        Instr::JpV0(nnn)
    } else if d1 == 0xC {
        Instr::Rnd(x, kk)
    } else if d1 == 0xD {
        Instr::Drw(x, y, d4 as u8)
    } else if d1 == 0xE && kk == 0x9E {
        Instr::Skp(x)
    } else if d1 == 0xE && kk == 0xA1 {
        Instr::Sknp(x)
    } else if d1 == 0xF && kk == 0x07 {
        Instr::LdFromDt(x)
    } else if d1 == 0xF && kk == 0x0A {
        Instr::LdKey(x)
    } else if d1 == 0xF && kk == 0x15 {
        Instr::LdDt(x)
    } else if d1 == 0xF && kk == 0x18 {
        Instr::LdSt(x)
    } else if d1 == 0xF && kk == 0x1E {
        Instr::AddI(x)
    } else if d1 == 0xF && kk == 0x29 {
        Instr::LdFont(x)
    } else if d1 == 0xF && kk == 0x33 {
        Instr::Bcd(x)
    } else if d1 == 0xF && kk == 0x55 {
        Instr::StoreV(x)
    } else if d1 == 0xF && kk == 0x65 {
        Instr::LoadV(x)
    } else {
        Instr::Unknown(op)
    }
}

/// Decodes one opcode by its four nibbles, per the fixed opcode table.
pub fn decode(op: u16) -> (i: Instr)
    ensures
        i == spec_decode(op),
        instr_wf(i),
{
    let d1 = op / 0x1000;
    let x = ((op / 0x100) % 16) as u8;
    let y = ((op / 16) % 16) as u8;
    let d4 = op % 16;
    let kk = (op % 256) as u8;
    let nnn = op % 0x1000;
    if op == 0x00E0 {
        Instr::Cls
    } else if op == 0x00EE {
        Instr::Ret
    } else if d1 == 0x1 {
        Instr::Jp(nnn)
    } else if d1 == 0x2 {
        Instr::CallSub(nnn)
    } else if d1 == 0x3 {
        Instr::SeImm(x, kk)
    } else if d1 == 0x4 {
        Instr::SneImm(x, kk)
    } else if d1 == 0x5 && d4 == 0x0 {
        Instr::SeReg(x, y)
    } else if d1 == 0x6 {
        Instr::LdImm(x, kk)
    } else if d1 == 0x7 {
        Instr::AddImm(x, kk)
    } else if d1 == 0x8 && d4 == 0x0 {
        Instr::LdReg(x, y)
    } else if d1 == 0x8 && d4 == 0x1 {
        Instr::OrReg(x, y)
    } else if d1 == 0x8 && d4 == 0x2 {
        Instr::AndReg(x, y)
    } else if d1 == 0x8 && d4 == 0x3 {
        Instr::XorReg(x, y)
    } else if d1 == 0x8 && d4 == 0x4 {
        Instr::AddCarry(x, y)
    } else if d1 == 0x8 && d4 == 0x5 {
        Instr::SubBorrow(x, y)
    } else if d1 == 0x8 && d4 == 0x6 {
        Instr::Shr(x)
    } else if d1 == 0x8 && d4 == 0x7 {
        Instr::SubnBorrow(x, y)
    } else if d1 == 0x8 && d4 == 0xE {
        Instr::Shl(x)
    } else if d1 == 0x9 && d4 == 0x0 {
        Instr::SneReg(x, y)
    } else if d1 == 0xA {
        Instr::LdI(nnn)
    } else if d1 == 0xB {
        Instr::JpV0(nnn)
    } else if d1 == 0xC {
        Instr::Rnd(x, kk)
    } else if d1 == 0xD {
        Instr::Drw(x, y, d4 as u8)
    } else if d1 == 0xE && kk == 0x9E {
        Instr::Skp(x)
    } else if d1 == 0xE && kk == 0xA1 {
        Instr::Sknp(x)
    } else if d1 == 0xF && kk == 0x07 {
        Instr::LdFromDt(x)
    } else if d1 == 0xF && kk == 0x0A {
        Instr::LdKey(x)
    } else if d1 == 0xF && kk == 0x15 {
        Instr::LdDt(x)
    } else if d1 == 0xF && kk == 0x18 {
        Instr::LdSt(x)
    } else if d1 == 0xF && kk == 0x1E {
        Instr::AddI(x)
    } else if d1 == 0xF && kk == 0x29 {
        Instr::LdFont(x)
    } else if d1 == 0xF && kk == 0x33 {
        Instr::Bcd(x)
    } else if d1 == 0xF && kk == 0x55 {
        Instr::StoreV(x)
    } else if d1 == 0xF && kk == 0x65 {
        Instr::LoadV(x)
    } else {
        Instr::Unknown(op)
    }
}

} // verus!
