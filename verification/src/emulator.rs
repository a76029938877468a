//! The interpreter state and its operations: construction and reset, program
//! loading, the timer tick, key input, the display snapshot, and the
//! fetch-decode-execute step.  Every operation's effect is stated against
//! [`EmuView`], the mathematical model of the machine.
use vstd::pervasive::VecAdditionalExecFns;
use vstd::prelude::*;

use crate::decode::{decode, instr_wf, spec_decode, Instr};
use crate::draw::{draw_hit, draw_result, lemma_partial_bit_step, lemma_partial_finish,
    lemma_partial_row_step, lemma_partial_start, lemma_pix_index, partial_draw, partial_hit,
    pix_index, spr_bit};
use crate::Chip8Error;
use crate::{FONT_ADDR, FONT_BYTES, NUM_KEYS, NUM_REGS, RAM_SIZE, SCREEN_SIZE, STACK_SIZE,
    START_ADDR};

verus! {

/// Seed of the pseudo-random sequence used by the random-masked load
/// instruction.  The generator is deterministic on purpose: the core does no
/// I/O and reads no clock, so two machines given the same inputs behave
/// identically.
pub const RNG_SEED: u16 = 0x1234;

/// The mathematical model of the whole machine: one record holding every
/// entity the interpreter owns.
#[verifier::ext_equal]
pub ghost struct EmuView {
    /// Program counter.
    pub pc: u16,
    /// The 4096 memory bytes.
    pub ram: Seq<u8>,
    /// The 64x32 pixel grid, row-major.
    pub screen: Seq<bool>,
    /// The sixteen 8-bit data registers.
    pub v: Seq<u8>,
    /// The 16-bit index register.
    pub i_reg: u16,
    /// Number of return addresses currently on the call stack.
    pub sp: usize,
    /// Backing store of the call stack; entries at `sp` and above are dead.
    pub stack: Seq<u16>,
    /// One flag per key: true while the key is held down.
    pub keys: Seq<bool>,
    /// Delay timer.
    pub dt: u8,
    /// Sound timer.
    pub st: u8,
    /// State of the pseudo-random generator.
    pub rng: u16,
}

impl EmuView {
    /// Well-formedness: every sequence has its fixed size and the stack
    /// pointer stays within the stack.
    pub open spec fn wf(self) -> bool {
        &&& self.ram.len() == RAM_SIZE
        &&& self.screen.len() == SCREEN_SIZE
        &&& self.v.len() == NUM_REGS
        &&& self.stack.len() == STACK_SIZE
        &&& self.keys.len() == NUM_KEYS
        &&& self.sp <= STACK_SIZE
    }
}

/// The 16-glyph, 5-bytes-per-glyph font bitmap, digit 0 first.
pub open spec fn font_seq() -> Seq<u8> {
    seq![
        0xF0u8, 0x90, 0x90, 0x90, 0xF0,
        0x20, 0x60, 0x20, 0x20, 0x70,
        0xF0, 0x10, 0xF0, 0x80, 0xF0,
        0xF0, 0x10, 0xF0, 0x10, 0xF0,
        0x90, 0x90, 0xF0, 0x10, 0x10,
        0xF0, 0x80, 0xF0, 0x10, 0xF0,
        0xF0, 0x80, 0xF0, 0x90, 0xF0,
        0xF0, 0x10, 0x20, 0x40, 0x40,
        0xF0, 0x90, 0xF0, 0x90, 0xF0,
        0xF0, 0x90, 0xF0, 0x10, 0xF0,
        0xF0, 0x90, 0xF0, 0x90, 0x90,
        0xE0, 0x90, 0xE0, 0x90, 0xE0,
        0xF0, 0x80, 0x80, 0x80, 0xF0,
        0xE0, 0x90, 0x90, 0x90, 0xE0,
        0xF0, 0x80, 0xF0, 0x80, 0xF0,
        0xF0, 0x80, 0xF0, 0x80, 0x80,
    ]
}

/// Memory as it stands at construction and after `reset`: all zero except
/// the font bitmap at its fixed offset.
pub open spec fn initial_ram() -> Seq<u8> {
    Seq::new(RAM_SIZE as nat, |i: int|
        if FONT_ADDR <= i < FONT_ADDR + FONT_BYTES {
            font_seq()[i - FONT_ADDR]
        } else {
            0u8
        })
}

/// The machine as it stands at construction and after `reset`.
pub open spec fn initial_view() -> EmuView {
    EmuView {
        pc: START_ADDR,
        ram: initial_ram(),
        screen: Seq::new(SCREEN_SIZE as nat, |i: int| false),
        v: Seq::new(NUM_REGS as nat, |i: int| 0u8),
        i_reg: 0,
        sp: 0,
        stack: Seq::new(STACK_SIZE as nat, |i: int| 0u16),
        keys: Seq::new(NUM_KEYS as nat, |i: int| false),
        dt: 0,
        st: 0,
        rng: RNG_SEED,
    }
}

/// One timer tick: each nonzero timer goes down by one, a zero timer stays
/// at zero.
pub open spec fn spec_tick_timers(s: EmuView) -> EmuView {
    EmuView {
        dt: if s.dt > 0 { (s.dt - 1) as u8 } else { 0u8 },
        st: if s.st > 0 { (s.st - 1) as u8 } else { 0u8 },
        ..s
    }
}

/// Memory after a program is copied in at the program start address.
pub open spec fn loaded_ram(ram: Seq<u8>, data: Seq<u8>) -> Seq<u8> {
    Seq::new(RAM_SIZE as nat, |i: int|
        if START_ADDR <= i < START_ADDR + data.len() {
            data[i - START_ADDR]
        } else {
            ram[i]
        })
}

/// The machine with one data register replaced.
pub open spec fn set_v(s: EmuView, x: int, val: u8) -> EmuView {
    EmuView { v: s.v.update(x, val), ..s }
}

/// The machine with the next instruction skipped when `cond` holds.
pub open spec fn skip_if(s: EmuView, cond: bool) -> EmuView {
    if cond {
        EmuView { pc: (s.pc + 2) as u16, ..s }
    } else {
        s
    }
}

/// The 16-bit big-endian word at the program counter.
pub open spec fn spec_opcode(s: EmuView) -> u16 {
    (s.ram[s.pc as int] * 256 + s.ram[s.pc as int + 1]) as u16
}

/// The pseudo-random generator's successor state: a linear congruential
/// step modulo 2^16.
pub open spec fn next_rng(r: u16) -> u16 {
    ((r * 25173 + 13849) % 0x10000) as u16
}

/// The byte drawn from one generator state.
pub open spec fn rng_byte(r: u16) -> u8 {
    (r / 256) as u8
}

/// The lowest pressed key code at or above `i`, or 16 when none is pressed.
pub open spec fn first_key_from(keys: Seq<bool>, i: int) -> int
    decreases 16 - i,
{
    if i < 0 || i >= 16 {
        16
    } else if keys[i] {
        i
    } else {
        first_key_from(keys, i + 1)
    }
}

/// `first_key_from` names the lowest pressed key: everything below it is
/// unpressed, and it is 16 exactly when no key at or above `i` is pressed.
pub proof fn lemma_first_key_from(keys: Seq<bool>, i: int)
    requires
        0 <= i <= 16,
    ensures
        first_key_from(keys, i) == 16 || (i <= first_key_from(keys, i) < 16 && keys[first_key_from(
            keys,
            i,
        )]),
        forall|j: int| i <= j < first_key_from(keys, i) ==> !keys[j],
        first_key_from(keys, i) == 16 ==> forall|j: int| i <= j < 16 ==> !keys[j],
    decreases 16 - i,
{
    if i < 16 && !keys[i] {
        lemma_first_key_from(keys, i + 1);
    }
}

/// The draw instruction: the sprite of `n` rows at the index register is
/// XOR-blended at `(Vx mod 64, Vy mod 32)` and the flag records a
/// collision; a sprite reaching past the top of memory is an error and
/// changes nothing.
pub open spec fn spec_drw(s: EmuView, x: u8, y: u8, n: u8) -> (EmuView, Result<(), Chip8Error>) {
    if s.i_reg + n > RAM_SIZE {
        (s, Err(Chip8Error::OutOfBoundsAccess))
    } else {
        let x0 = s.v[x as int] as int % 64;
        let y0 = s.v[y as int] as int % 32;
        let sprite = s.ram.subrange(s.i_reg as int, s.i_reg as int + n);
        let flag: u8 = if draw_hit(s.screen, sprite, x0, y0) {
            1u8
        } else {
            0u8
        };
        (
            EmuView {
                screen: draw_result(s.screen, sprite, x0, y0),
                v: s.v.update(15, flag),
                ..s
            },
            Ok(()),
        )
    }
}

/// The effect of one decoded instruction on a machine whose program counter
/// has already moved past it.  Yields the machine after the instruction and
/// the call's result; on an error the machine is unchanged.
pub open spec fn spec_execute(s: EmuView, i: Instr) -> (EmuView, Result<(), Chip8Error>) {
    match i {
        Instr::Cls => (
            EmuView { screen: Seq::new(SCREEN_SIZE as nat, |p: int| false), ..s },
            Ok(()),
        ),
        Instr::Ret => if s.sp == 0 {
            (s, Err(Chip8Error::StackUnderflow))
        } else {
            (EmuView { sp: (s.sp - 1) as usize, pc: s.stack[s.sp - 1], ..s }, Ok(()))
        },
        Instr::Jp(nnn) => (EmuView { pc: nnn, ..s }, Ok(())),
        Instr::CallSub(nnn) => if s.sp >= STACK_SIZE {
            (s, Err(Chip8Error::StackOverflow))
        } else {
            (
                EmuView {
                    stack: s.stack.update(s.sp as int, s.pc),
                    sp: (s.sp + 1) as usize,
                    pc: nnn,
                    ..s
                },
                Ok(()),
            )
        },
        Instr::SeImm(x, kk) => (skip_if(s, s.v[x as int] == kk), Ok(())),
        Instr::SneImm(x, kk) => (skip_if(s, s.v[x as int] != kk), Ok(())),
        Instr::SeReg(x, y) => (skip_if(s, s.v[x as int] == s.v[y as int]), Ok(())),
        Instr::LdImm(x, kk) => (set_v(s, x as int, kk), Ok(())),
        Instr::AddImm(x, kk) => (
            set_v(s, x as int, ((s.v[x as int] + kk) % 256) as u8),
            Ok(()),
        ),
        Instr::LdReg(x, y) => (set_v(s, x as int, s.v[y as int]), Ok(())),
        Instr::OrReg(x, y) => (set_v(s, x as int, s.v[x as int] | s.v[y as int]), Ok(())),
        Instr::AndReg(x, y) => (set_v(s, x as int, s.v[x as int] & s.v[y as int]), Ok(())),
        Instr::XorReg(x, y) => (set_v(s, x as int, s.v[x as int] ^ s.v[y as int]), Ok(())),
        Instr::AddCarry(x, y) => {
            let sum = s.v[x as int] + s.v[y as int];
            let flag: u8 = if sum > 255 {
                1u8
            } else {
                0u8
            };
            (
                EmuView { v: s.v.update(x as int, (sum % 256) as u8).update(15, flag), ..s },
                Ok(()),
            )
        },
        Instr::SubBorrow(x, y) => {
            let a = s.v[x as int];
            let b = s.v[y as int];
            let flag: u8 = if a >= b {
                1u8
            } else {
                0u8
            };
            (
                EmuView { v: s.v.update(x as int, ((a - b) % 256) as u8).update(15, flag), ..s },
                Ok(()),
            )
        },
        Instr::Shr(x) => {
            let a = s.v[x as int];
            (
                EmuView { v: s.v.update(x as int, (a / 2) as u8).update(15, (a % 2) as u8), ..s },
                Ok(()),
            )
        },
        Instr::SubnBorrow(x, y) => {
            let a = s.v[x as int];
            let b = s.v[y as int];
            let flag: u8 = if b >= a {
                1u8
            } else {
                0u8
            };
            (
                EmuView { v: s.v.update(x as int, ((b - a) % 256) as u8).update(15, flag), ..s },
                Ok(()),
            )
        },
        Instr::Shl(x) => {
            let a = s.v[x as int];
            (
                EmuView {
                    v: s.v.update(x as int, ((a * 2) % 256) as u8).update(15, (a / 128) as u8),
                    ..s
                },
                Ok(()),
            )
        },
        Instr::SneReg(x, y) => (skip_if(s, s.v[x as int] != s.v[y as int]), Ok(())),
        Instr::LdI(nnn) => (EmuView { i_reg: nnn, ..s }, Ok(())),
        Instr::JpV0(nnn) => (EmuView { pc: (nnn + s.v[0]) as u16, ..s }, Ok(())),
        Instr::Rnd(x, kk) => {
            let r2 = next_rng(s.rng);
            (
                EmuView { rng: r2, v: s.v.update(x as int, rng_byte(r2) & kk), ..s },
                Ok(()),
            )
        },
        Instr::Drw(x, y, n) => spec_drw(s, x, y, n),
        Instr::Skp(x) => (skip_if(s, s.keys[s.v[x as int] as int % 16]), Ok(())),
        Instr::Sknp(x) => (skip_if(s, !s.keys[s.v[x as int] as int % 16]), Ok(())),
        Instr::LdFromDt(x) => (set_v(s, x as int, s.dt), Ok(())),
        Instr::LdKey(x) => {
            let k = first_key_from(s.keys, 0);
            if k < 16 {
                (set_v(s, x as int, k as u8), Ok(()))
            } else {
                (EmuView { pc: (s.pc - 2) as u16, ..s }, Ok(()))
            }
        },
        Instr::LdDt(x) => (EmuView { dt: s.v[x as int], ..s }, Ok(())),
        Instr::LdSt(x) => (EmuView { st: s.v[x as int], ..s }, Ok(())),
        Instr::AddI(x) => (
            EmuView { i_reg: ((s.i_reg + s.v[x as int]) % 0x10000) as u16, ..s },
            Ok(()),
        ),
        Instr::LdFont(x) => (
            EmuView { i_reg: (FONT_ADDR + 5 * (s.v[x as int] % 16)) as u16, ..s },
            Ok(()),
        ),
        Instr::Bcd(x) => if s.i_reg + 2 >= RAM_SIZE {
            (s, Err(Chip8Error::OutOfBoundsAccess))
        } else {
            let a = s.v[x as int];
            (
                EmuView {
                    ram: s.ram.update(s.i_reg as int, (a / 100) as u8).update(
                        s.i_reg as int + 1,
                        ((a / 10) % 10) as u8,
                    ).update(s.i_reg as int + 2, (a % 10) as u8),
                    ..s
                },
                Ok(()),
            )
        },
        Instr::StoreV(x) => if s.i_reg + x >= RAM_SIZE {
            (s, Err(Chip8Error::OutOfBoundsAccess))
        } else {
            (
                EmuView {
                    ram: Seq::new(RAM_SIZE as nat, |j: int|
                        if s.i_reg <= j <= s.i_reg + x {
                            s.v[j - s.i_reg]
                        } else {
                            s.ram[j]
                        }),
                    ..s
                },
                Ok(()),
            )
        },
        Instr::LoadV(x) => if s.i_reg + x >= RAM_SIZE {
            (s, Err(Chip8Error::OutOfBoundsAccess))
        } else {
            (
                EmuView {
                    v: Seq::new(NUM_REGS as nat, |j: int|
                        if 0 <= j <= x {
                            s.ram[s.i_reg + j]
                        } else {
                            s.v[j]
                        }),
                    ..s
                },
                Ok(()),
            )
        },
        Instr::Unknown(op) => (s, Err(Chip8Error::UnknownOpcode(op))),
    }
}

/// One whole interpreter step: fetch the word at the program counter,
/// advance the counter past it, then apply the decoded instruction.  A
/// fetch reaching past the top of memory is an error and changes nothing.
pub open spec fn spec_step(s: EmuView) -> (EmuView, Result<(), Chip8Error>) {
    if s.pc + 1 >= RAM_SIZE {
        (s, Err(Chip8Error::OutOfBoundsAccess))
    } else {
        spec_execute(EmuView { pc: (s.pc + 2) as u16, ..s }, spec_decode(spec_opcode(s)))
    }
}

/// The interpreter.  All entities are created together at construction,
/// owned exclusively by this struct, and mutated only by its operations;
/// the host drives it one call at a time.
pub struct Emulator {
    /// Program counter.
    pub pc: u16,
    /// The 4096 memory bytes.
    pub ram: Vec<u8>,
    /// The 64x32 pixel grid, row-major.
    pub screen: Vec<bool>,
    /// The sixteen 8-bit data registers.
    pub v_reg: Vec<u8>,
    /// The 16-bit index register.
    pub i_reg: u16,
    /// Number of return addresses currently on the call stack.
    pub sp: usize,
    /// Backing store of the call stack.
    pub stack: Vec<u16>,
    /// One flag per key.
    pub keys: Vec<bool>,
    /// Delay timer.
    pub dt: u8,
    /// Sound timer.
    pub st: u8,
    /// State of the pseudo-random generator.
    pub rng: u16,
}

impl View for Emulator {
    type V = EmuView;

    open spec fn view(&self) -> EmuView {
        EmuView {
            pc: self.pc,
            ram: self.ram@,
            screen: self.screen@,
            v: self.v_reg@,
            i_reg: self.i_reg,
            sp: self.sp,
            stack: self.stack@,
            keys: self.keys@,
            dt: self.dt,
            st: self.st,
            rng: self.rng,
        }
    }
}

/// A vector holding `len` copies of `val`.
fn filled<T: Copy>(len: usize, val: T) -> (v: Vec<T>)
    ensures
        v@ == Seq::new(len as nat, |i: int| val),
{
    let mut v: Vec<T> = Vec::new();
    while v.len() < len
        invariant
            v@.len() <= len,
            forall|i: int| 0 <= i < v@.len() ==> v@[i] == val,
        decreases len - v.len(),
    {
        v.push(val);
    }
    proof {
        assert(v@ =~= Seq::new(len as nat, |i: int| val));
    }
    v
}

/// The font bitmap as a vector, for writing into memory.
fn font_vec() -> (v: Vec<u8>)
    ensures
        v@ == font_seq(),
{
    let v: Vec<u8> = vec![
        0xF0, 0x90, 0x90, 0x90, 0xF0,
        0x20, 0x60, 0x20, 0x20, 0x70,
        0xF0, 0x10, 0xF0, 0x80, 0xF0,
        0xF0, 0x10, 0xF0, 0x10, 0xF0,
        0x90, 0x90, 0xF0, 0x10, 0x10,
        0xF0, 0x80, 0xF0, 0x10, 0xF0,
        0xF0, 0x80, 0xF0, 0x90, 0xF0,
        0xF0, 0x10, 0x20, 0x40, 0x40,
        0xF0, 0x90, 0xF0, 0x90, 0xF0,
        0xF0, 0x90, 0xF0, 0x10, 0xF0,
        0xF0, 0x90, 0xF0, 0x90, 0x90,
        0xE0, 0x90, 0xE0, 0x90, 0xE0,
        0xF0, 0x80, 0x80, 0x80, 0xF0,
        0xE0, 0x90, 0x90, 0x90, 0xE0,
        0xF0, 0x80, 0xF0, 0x80, 0xF0,
        0xF0, 0x80, 0xF0, 0x80, 0x80,
    ];
    proof {
        assert(v@ =~= font_seq());
    }
    v
}

/// Bit `c` (0 = leftmost) of a sprite row byte.
fn spr_bit_exec(b: u8, c: usize) -> (r: bool)
    requires
        c < 8,
    ensures
        r == spr_bit(b, c as int),
{
    if c == 0 {
        b / 128 % 2 == 1
    } else if c == 1 {
        b / 64 % 2 == 1
    } else if c == 2 {
        b / 32 % 2 == 1
    } else if c == 3 {
        b / 16 % 2 == 1
    } else if c == 4 {
        b / 8 % 2 == 1
    } else if c == 5 {
        b / 4 % 2 == 1
    } else if c == 6 {
        b / 2 % 2 == 1
    } else {
        b % 2 == 1
    }
}

/// Turns every pixel off.
fn clear_screen(screen: &mut Vec<bool>)
    requires
        old(screen)@.len() == SCREEN_SIZE,
    ensures
        final(screen)@ == Seq::new(SCREEN_SIZE as nat, |p: int| false),
{
    let mut k: usize = 0;
    while k < SCREEN_SIZE
        invariant
            k <= SCREEN_SIZE,
            screen@.len() == SCREEN_SIZE,
            forall|i: int| 0 <= i < k ==> !screen@[i],
        decreases SCREEN_SIZE - k,
    {
        screen.set(k, false);
        k += 1;
    }
    proof {
        assert(screen@ =~= Seq::new(SCREEN_SIZE as nat, |p: int| false));
    }
}

/// Writes registers 0 through `x` into memory starting at `i0`.
fn store_regs(ram: &mut Vec<u8>, v: &Vec<u8>, i0: usize, x: usize)
    requires
        old(ram)@.len() == RAM_SIZE,
        v@.len() == NUM_REGS,
        x < NUM_REGS,
        i0 + x < RAM_SIZE,
    ensures
        final(ram)@ == Seq::new(RAM_SIZE as nat, |j: int|
            if i0 <= j <= i0 + x {
                v@[j - i0]
            } else {
                old(ram)@[j]
            }),
{
    let mut k: usize = 0;
    while k <= x
        invariant
            k <= x + 1,
            x < NUM_REGS,
            i0 + x < RAM_SIZE,
            ram@.len() == RAM_SIZE,
            v@.len() == NUM_REGS,
            forall|j: int| i0 <= j < i0 + k ==> ram@[j] == v@[j - i0],
            forall|j: int| 0 <= j < RAM_SIZE && !(i0 <= j < i0 + k) ==> ram@[j] == old(ram)@[j],
        decreases x + 1 - k,
    {
        ram.set(i0 + k, v[k]);
        k += 1;
    }
    proof {
        assert(ram@ =~= Seq::new(RAM_SIZE as nat, |j: int|
            if i0 <= j <= i0 + x {
                v@[j - i0]
            } else {
                old(ram)@[j]
            }));
    }
}

/// Fills registers 0 through `x` from memory starting at `i0`.
fn load_regs(v: &mut Vec<u8>, ram: &Vec<u8>, i0: usize, x: usize)
    requires
        old(v)@.len() == NUM_REGS,
        ram@.len() == RAM_SIZE,
        x < NUM_REGS,
        i0 + x < RAM_SIZE,
    ensures
        final(v)@ == Seq::new(NUM_REGS as nat, |j: int|
            if 0 <= j <= x {
                ram@[i0 + j]
            } else {
                old(v)@[j]
            }),
{
    let mut k: usize = 0;
    while k <= x
        invariant
            k <= x + 1,
            x < NUM_REGS,
            i0 + x < RAM_SIZE,
            v@.len() == NUM_REGS,
            ram@.len() == RAM_SIZE,
            forall|j: int| 0 <= j < k ==> v@[j] == ram@[i0 + j],
            forall|j: int| 0 <= j < NUM_REGS && !(0 <= j < k) ==> v@[j] == old(v)@[j],
        decreases x + 1 - k,
    {
        v.set(k, ram[i0 + k]);
        k += 1;
    }
    proof {
        assert(v@ =~= Seq::new(NUM_REGS as nat, |j: int|
            if 0 <= j <= x {
                ram@[i0 + j]
            } else {
                old(v)@[j]
            }));
    }
}

/// The lowest pressed key code, or 16 when none is pressed.
fn first_pressed(keys: &Vec<bool>) -> (k: usize)
    requires
        keys@.len() == NUM_KEYS,
    ensures
        k as int == first_key_from(keys@, 0),
{
    let mut k: usize = 0;
    while k < NUM_KEYS
        invariant
            k <= NUM_KEYS,
            keys@.len() == NUM_KEYS,
            forall|j: int| 0 <= j < k ==> !keys@[j],
        decreases NUM_KEYS - k,
    {
        if keys[k] {
            proof {
                lemma_first_key_from(keys@, 0);
            }
            return k;
        }
        k += 1;
    }
    proof {
        lemma_first_key_from(keys@, 0);
    }
    k
}

impl Emulator {
    /// Well-formedness of the live machine, stated on its model.
    pub open spec fn wf(&self) -> bool {
        self@.wf()
    }

    /// A fresh machine: font loaded, everything else zeroed, program counter
    /// at the program start address.
    pub fn new() -> (e: Emulator)
        ensures
            e.wf(),
            e@ == initial_view(),
    {
        let mut e = Emulator {
            pc: 0,
            ram: Vec::new(),
            screen: Vec::new(),
            v_reg: Vec::new(),
            i_reg: 0,
            sp: 0,
            stack: Vec::new(),
            keys: Vec::new(),
            dt: 0,
            st: 0,
            rng: 0,
        };
        e.reset();
        e
    }

    /// Reinitializes every entity to its construction-time state: memory
    /// zeroed with the font reloaded, registers, stack, timers and keys
    /// cleared, display cleared, program counter back at the start address.
    pub fn reset(&mut self)
        ensures
            final(self).wf(),
            final(self)@ == initial_view(),
    {
        self.pc = START_ADDR;
        let mut ram = filled::<u8>(RAM_SIZE, 0);
        let font = font_vec();
        let mut k: usize = 0;
        while k < FONT_BYTES
            invariant
                k <= FONT_BYTES,
                ram@.len() == RAM_SIZE,
                font@ == font_seq(),
                forall|i: int|
                    FONT_ADDR <= i < FONT_ADDR + k ==> ram@[i] == font_seq()[i - FONT_ADDR],
                forall|i: int|
                    0 <= i < RAM_SIZE && !(FONT_ADDR <= i < FONT_ADDR + k) ==> ram@[i] == 0,
            decreases FONT_BYTES - k,
        {
            ram.set(FONT_ADDR + k, font[k]);
            k += 1;
        }
        self.ram = ram;
        self.screen = filled::<bool>(SCREEN_SIZE, false);
        self.v_reg = filled::<u8>(NUM_REGS, 0);
        self.i_reg = 0;
        self.sp = 0;
        self.stack = filled::<u16>(STACK_SIZE, 0);
        self.keys = filled::<bool>(NUM_KEYS, false);
        self.dt = 0;
        self.st = 0;
        self.rng = RNG_SEED;
        proof {
            assert(self@.ram =~= initial_ram());
            assert(self@ =~= initial_view());
        }
    }

    /// Copies a program into memory at the start address.  A program larger
    /// than the space above the start address is rejected with
    /// `CapacityExceeded` and nothing changes; otherwise only the program
    /// bytes change and every other entity keeps its value.
    pub fn load(&mut self, data: &[u8]) -> (res: Result<(), Chip8Error>)
        requires
            old(self).wf(),
        ensures
            final(self).wf(),
            data@.len() > RAM_SIZE - START_ADDR ==> {
                &&& res == Err::<(), Chip8Error>(Chip8Error::CapacityExceeded)
                &&& final(self)@ == old(self)@
            },
            data@.len() <= RAM_SIZE - START_ADDR ==> {
                &&& res == Ok::<(), Chip8Error>(())
                &&& final(self)@ == (EmuView { ram: loaded_ram(old(self)@.ram, data@), ..old(self)@ })
            },
    {
        if data.len() > RAM_SIZE - (START_ADDR as usize) {
            return Err(Chip8Error::CapacityExceeded);
        }
        let mut k: usize = 0;
        while k < data.len()
            invariant
                old(self).wf(),
                k <= data@.len(),
                data@.len() <= RAM_SIZE - START_ADDR,
                self.ram@.len() == RAM_SIZE,
                forall|i: int|
                    START_ADDR <= i < START_ADDR + k ==> self.ram@[i] == data@[i - START_ADDR],
                forall|i: int|
                    0 <= i < RAM_SIZE && !(START_ADDR <= i < START_ADDR + k)
                        ==> self.ram@[i] == old(self)@.ram[i],
                self.pc == old(self).pc,
                self.screen@ == old(self)@.screen,
                self.v_reg@ == old(self)@.v,
                self.i_reg == old(self).i_reg,
                self.sp == old(self).sp,
                self.stack@ == old(self)@.stack,
                self.keys@ == old(self)@.keys,
                self.dt == old(self).dt,
                self.st == old(self).st,
                self.rng == old(self).rng,
            decreases data@.len() - k,
        {
            self.ram.set(START_ADDR as usize + k, data[k]);
            k += 1;
        }
        proof {
            assert(self@.ram =~= loaded_ram(old(self)@.ram, data@));
            assert(self@ =~= (EmuView { ram: loaded_ram(old(self)@.ram, data@), ..old(self)@ }));
        }
        Ok(())
    }

    /// One timer tick: each nonzero timer goes down by one, a zero timer
    /// stays at zero.  Never invoked by instruction execution; the host
    /// calls it at its own fixed rate.
    pub fn tick_timers(&mut self)
        ensures
            final(self)@ == spec_tick_timers(old(self)@),
    {
        if self.dt > 0 {
            self.dt = self.dt - 1;
        }
        if self.st > 0 {
            self.st = self.st - 1;
        }
        proof {
            assert(self@ =~= spec_tick_timers(old(self)@));
        }
    }

    /// Whether the sound timer is active; the host's audio collaborator
    /// emits sound while this is true.
    pub fn sound_active(&self) -> (b: bool)
        ensures
            b == (self@.st > 0),
    {
        self.st > 0
    }

    /// Records a key going down or up.  A code of 16 or more names no key
    /// and changes nothing.
    pub fn keypress(&mut self, idx: usize, pressed: bool)
        requires
            old(self).wf(),
        ensures
            final(self).wf(),
            idx < NUM_KEYS ==> final(self)@ == (EmuView {
                keys: old(self)@.keys.update(idx as int, pressed),
                ..old(self)@
            }),
            idx >= NUM_KEYS ==> final(self)@ == old(self)@,
    {
        if idx < NUM_KEYS {
            self.keys.set(idx, pressed);
            proof {
                assert(self@ =~= (EmuView {
                    keys: old(self)@.keys.update(idx as int, pressed),
                    ..old(self)@
                }));
            }
        }
    }

    /// A snapshot of the pixel grid, row-major; the machine is not changed.
    pub fn get_display(&self) -> (d: Vec<bool>)
        requires
            self.wf(),
        ensures
            d@ == self@.screen,
    {
        let mut d: Vec<bool> = Vec::new();
        let mut k: usize = 0;
        while k < self.screen.len()
            invariant
                self.wf(),
                k <= SCREEN_SIZE,
                d@ =~= self@.screen.subrange(0, k as int),
            decreases SCREEN_SIZE - k,
        {
            d.push(self.screen[k]);
            k += 1;
        }
        proof {
            assert(d@ =~= self@.screen);
        }
        d
    }

    /// Applies one decoded instruction to a machine whose program counter
    /// has already moved past it.
    fn execute(&mut self, i: Instr) -> (res: Result<(), Chip8Error>)
        requires
            old(self).wf(),
            instr_wf(i),
            2 <= old(self).pc <= 4096,
        ensures
            final(self).wf(),
            final(self)@ == spec_execute(old(self)@, i).0,
            res == spec_execute(old(self)@, i).1,
    {
        match i {
            Instr::Cls => {
                clear_screen(&mut self.screen);
                proof {
                    assert(self@ =~= (EmuView {
                        screen: Seq::new(SCREEN_SIZE as nat, |p: int| false),
                        ..old(self)@
                    }));
                }
                Ok(())
            },
            Instr::Ret => {
                if self.sp == 0 {
                    Err(Chip8Error::StackUnderflow)
                } else {
                    self.sp = self.sp - 1;
                    self.pc = self.stack[self.sp];
                    proof {
                        assert(self@ =~= (EmuView {
                            sp: (old(self)@.sp - 1) as usize,
                            pc: old(self)@.stack[old(self)@.sp - 1],
                            ..old(self)@
                        }));
                    }
                    Ok(())
                }
            },
            Instr::Jp(nnn) => {
                self.pc = nnn;
                proof {
                    assert(self@ =~= (EmuView { pc: nnn, ..old(self)@ }));
                }
                Ok(())
            },
            Instr::CallSub(nnn) => {
                if self.sp >= STACK_SIZE {
                    Err(Chip8Error::StackOverflow)
                } else {
                    self.stack.set(self.sp, self.pc);
                    self.sp = self.sp + 1;
                    self.pc = nnn;
                    proof {
                        assert(self@ =~= (EmuView {
                            stack: old(self)@.stack.update(old(self)@.sp as int, old(self)@.pc),
                            sp: (old(self)@.sp + 1) as usize,
                            pc: nnn,
                            ..old(self)@
                        }));
                    }
                    Ok(())
                }
            },
            Instr::SeImm(x, kk) => {
                if self.v_reg[x as usize] == kk {
                    self.pc = self.pc + 2;
                }
                proof {
                    assert(self@ =~= skip_if(old(self)@, old(self)@.v[x as int] == kk));
                }
                Ok(())
            },
            Instr::SneImm(x, kk) => {
                if self.v_reg[x as usize] != kk {
                    self.pc = self.pc + 2;
                }
                proof {
                    assert(self@ =~= skip_if(old(self)@, old(self)@.v[x as int] != kk));
                }
                Ok(())
            },
            Instr::SeReg(x, y) => {
                if self.v_reg[x as usize] == self.v_reg[y as usize] {
                    self.pc = self.pc + 2;
                }
                proof {
                    assert(self@ =~= skip_if(
                        old(self)@,
                        old(self)@.v[x as int] == old(self)@.v[y as int],
                    ));
                }
                Ok(())
            },
            Instr::LdImm(x, kk) => {
                self.v_reg.set(x as usize, kk);
                proof {
                    assert(self@ =~= set_v(old(self)@, x as int, kk));
                }
                Ok(())
            },
            Instr::AddImm(x, kk) => {
                let sum: u16 = self.v_reg[x as usize] as u16 + kk as u16;
                self.v_reg.set(x as usize, (sum % 256) as u8);
                proof {
                    assert(self@ =~= set_v(
                        old(self)@,
                        x as int,
                        ((old(self)@.v[x as int] + kk) % 256) as u8,
                    ));
                }
                Ok(())
            },
            Instr::LdReg(x, y) => {
                let b = self.v_reg[y as usize];
                self.v_reg.set(x as usize, b);
                proof {
                    assert(self@ =~= set_v(old(self)@, x as int, old(self)@.v[y as int]));
                }
                Ok(())
            },
            Instr::OrReg(x, y) => {
                let b = self.v_reg[x as usize] | self.v_reg[y as usize];
                self.v_reg.set(x as usize, b);
                proof {
                    assert(self@ =~= set_v(
                        old(self)@,
                        x as int,
                        old(self)@.v[x as int] | old(self)@.v[y as int],
                    ));
                }
                Ok(())
            },
            Instr::AndReg(x, y) => {
                let b = self.v_reg[x as usize] & self.v_reg[y as usize];
                self.v_reg.set(x as usize, b);
                proof {
                    assert(self@ =~= set_v(
                        old(self)@,
                        x as int,
                        old(self)@.v[x as int] & old(self)@.v[y as int],
                    ));
                }
                Ok(())
            },
            Instr::XorReg(x, y) => {
                let b = self.v_reg[x as usize] ^ self.v_reg[y as usize];
                self.v_reg.set(x as usize, b);
                proof {
                    assert(self@ =~= set_v(
                        old(self)@,
                        x as int,
                        old(self)@.v[x as int] ^ old(self)@.v[y as int],
                    ));
                }
                Ok(())
            },
            Instr::AddCarry(x, y) => {
                let sum: u16 = self.v_reg[x as usize] as u16 + self.v_reg[y as usize] as u16;
                let flag: u8 = if sum > 255 {
                    1
                } else {
                    0
                };
                self.v_reg.set(x as usize, (sum % 256) as u8);
                self.v_reg.set(15, flag);
                proof {
                    let s = old(self)@;
                    let sum_s = s.v[x as int] + s.v[y as int];
                    assert(self@ =~= (EmuView {
                        v: s.v.update(x as int, (sum_s % 256) as u8).update(
                            15,
                            if sum_s > 255 {
                                1u8
                            } else {
                                0u8
                            },
                        ),
                        ..s
                    }));
                }
                Ok(())
            },
            Instr::SubBorrow(x, y) => {
                let a = self.v_reg[x as usize];
                let b = self.v_reg[y as usize];
                let diff: u16 = (a as u16 + 256) - (b as u16);
                let flag: u8 = if a >= b {
                    1
                } else {
                    0
                };
                proof {
                    vstd::arithmetic::div_mod::lemma_mod_add_multiples_vanish(
                        a as int - b as int,
                        256,
                    );
                }
                self.v_reg.set(x as usize, (diff % 256) as u8);
                self.v_reg.set(15, flag);
                proof {
                    let s = old(self)@;
                    assert(self@ =~= (EmuView {
                        v: s.v.update(x as int, ((a - b) % 256) as u8).update(
                            15,
                            if a >= b {
                                1u8
                            } else {
                                0u8
                            },
                        ),
                        ..s
                    }));
                }
                Ok(())
            },
            Instr::Shr(x) => {
                let a = self.v_reg[x as usize];
                self.v_reg.set(x as usize, a / 2);
                self.v_reg.set(15, a % 2);
                proof {
                    let s = old(self)@;
                    assert(self@ =~= (EmuView {
                        v: s.v.update(x as int, (a / 2) as u8).update(15, (a % 2) as u8),
                        ..s
                    }));
                }
                Ok(())
            },
            Instr::SubnBorrow(x, y) => {
                let a = self.v_reg[x as usize];
                let b = self.v_reg[y as usize];
                let diff: u16 = (b as u16 + 256) - (a as u16);
                let flag: u8 = if b >= a {
                    1
                } else {
                    0
                };
                proof {
                    vstd::arithmetic::div_mod::lemma_mod_add_multiples_vanish(
                        b as int - a as int,
                        256,
                    );
                }
                self.v_reg.set(x as usize, (diff % 256) as u8);
                self.v_reg.set(15, flag);
                proof {
                    let s = old(self)@;
                    assert(self@ =~= (EmuView {
                        v: s.v.update(x as int, ((b - a) % 256) as u8).update(
                            15,
                            if b >= a {
                                1u8
                            } else {
                                0u8
                            },
                        ),
                        ..s
                    }));
                }
                Ok(())
            },
            Instr::Shl(x) => {
                let a = self.v_reg[x as usize];
                let doubled: u16 = a as u16 * 2;
                self.v_reg.set(x as usize, (doubled % 256) as u8);
                self.v_reg.set(15, a / 128);
                proof {
                    let s = old(self)@;
                    assert(self@ =~= (EmuView {
                        v: s.v.update(x as int, ((a * 2) % 256) as u8).update(
                            15,
                            (a / 128) as u8,
                        ),
                        ..s
                    }));
                }
                Ok(())
            },
            Instr::SneReg(x, y) => {
                if self.v_reg[x as usize] != self.v_reg[y as usize] {
                    self.pc = self.pc + 2;
                }
                proof {
                    assert(self@ =~= skip_if(
                        old(self)@,
                        old(self)@.v[x as int] != old(self)@.v[y as int],
                    ));
                }
                Ok(())
            },
            Instr::LdI(nnn) => {
                self.i_reg = nnn;
                proof {
                    assert(self@ =~= (EmuView { i_reg: nnn, ..old(self)@ }));
                }
                Ok(())
            },
            Instr::JpV0(nnn) => {
                self.pc = nnn + self.v_reg[0] as u16;
                proof {
                    assert(self@ =~= (EmuView {
                        pc: (nnn + old(self)@.v[0]) as u16,
                        ..old(self)@
                    }));
                }
                Ok(())
            },
            Instr::Rnd(x, kk) => {
                let t: u32 = self.rng as u32 * 25173 + 13849;
                let r2: u16 = (t % 0x10000) as u16;
                self.rng = r2;
                self.v_reg.set(x as usize, (r2 / 256) as u8 & kk);
                proof {
                    let s = old(self)@;
                    assert(r2 == next_rng(s.rng));
                    assert(self@ =~= (EmuView {
                        rng: next_rng(s.rng),
                        v: s.v.update(x as int, rng_byte(next_rng(s.rng)) & kk),
                        ..s
                    }));
                }
                Ok(())
            },
            Instr::Drw(x, y, n) => self.op_draw(x, y, n),
            Instr::Skp(x) => {
                let vk = (self.v_reg[x as usize] % 16) as usize;
                let down = self.keys[vk];
                if down {
                    self.pc = self.pc + 2;
                }
                proof {
                    assert(self@ =~= skip_if(
                        old(self)@,
                        old(self)@.keys[old(self)@.v[x as int] as int % 16],
                    ));
                }
                Ok(())
            },
            Instr::Sknp(x) => {
                let vk = (self.v_reg[x as usize] % 16) as usize;
                let down = self.keys[vk];
                if !down {
                    self.pc = self.pc + 2;
                }
                proof {
                    assert(self@ =~= skip_if(
                        old(self)@,
                        !old(self)@.keys[old(self)@.v[x as int] as int % 16],
                    ));
                }
                Ok(())
            },
            Instr::LdFromDt(x) => {
                let b = self.dt;
                self.v_reg.set(x as usize, b);
                proof {
                    assert(self@ =~= set_v(old(self)@, x as int, old(self)@.dt));
                }
                Ok(())
            },
            Instr::LdKey(x) => {
                let k = first_pressed(&self.keys);
                if k < 16 {
                    self.v_reg.set(x as usize, k as u8);
                    proof {
                        assert(self@ =~= set_v(
                            old(self)@,
                            x as int,
                            first_key_from(old(self)@.keys, 0) as u8,
                        ));
                    }
                } else {
                    self.pc = self.pc - 2;
                    proof {
                        assert(self@ =~= (EmuView {
                            pc: (old(self)@.pc - 2) as u16,
                            ..old(self)@
                        }));
                    }
                }
                Ok(())
            },
            Instr::LdDt(x) => {
                self.dt = self.v_reg[x as usize];
                proof {
                    assert(self@ =~= (EmuView { dt: old(self)@.v[x as int], ..old(self)@ }));
                }
                Ok(())
            },
            Instr::LdSt(x) => {
                self.st = self.v_reg[x as usize];
                proof {
                    assert(self@ =~= (EmuView { st: old(self)@.v[x as int], ..old(self)@ }));
                }
                Ok(())
            },
            Instr::AddI(x) => {
                let t: u32 = self.i_reg as u32 + self.v_reg[x as usize] as u32;
                self.i_reg = (t % 0x10000) as u16;
                proof {
                    let s = old(self)@;
                    assert(self@ =~= (EmuView {
                        i_reg: ((s.i_reg + s.v[x as int]) % 0x10000) as u16,
                        ..s
                    }));
                }
                Ok(())
            },
            Instr::LdFont(x) => {
                self.i_reg = FONT_ADDR as u16 + 5 * (self.v_reg[x as usize] % 16) as u16;
                proof {
                    let s = old(self)@;
                    assert(self@ =~= (EmuView {
                        i_reg: (FONT_ADDR + 5 * (s.v[x as int] % 16)) as u16,
                        ..s
                    }));
                }
                Ok(())
            },
            Instr::Bcd(x) => {
                let i0 = self.i_reg as usize;
                if i0 + 2 >= RAM_SIZE {
                    Err(Chip8Error::OutOfBoundsAccess)
                } else {
                    let a = self.v_reg[x as usize];
                    self.ram.set(i0, a / 100);
                    self.ram.set(i0 + 1, (a / 10) % 10);
                    self.ram.set(i0 + 2, a % 10);
                    proof {
                        let s = old(self)@;
                        assert(self@ =~= (EmuView {
                            ram: s.ram.update(s.i_reg as int, (a / 100) as u8).update(
                                s.i_reg as int + 1,
                                ((a / 10) % 10) as u8,
                            ).update(s.i_reg as int + 2, (a % 10) as u8),
                            ..s
                        }));
                    }
                    Ok(())
                }
            },
            Instr::StoreV(x) => {
                let i0 = self.i_reg as usize;
                if i0 + x as usize >= RAM_SIZE {
                    Err(Chip8Error::OutOfBoundsAccess)
                } else {
                    store_regs(&mut self.ram, &self.v_reg, i0, x as usize);
                    proof {
                        let s = old(self)@;
                        assert(self@.ram =~= Seq::new(RAM_SIZE as nat, |j: int|
                            if s.i_reg <= j <= s.i_reg + x {
                                s.v[j - s.i_reg]
                            } else {
                                s.ram[j]
                            }));
                        assert(self@ =~= (EmuView {
                            ram: Seq::new(RAM_SIZE as nat, |j: int|
                                if s.i_reg <= j <= s.i_reg + x {
                                    s.v[j - s.i_reg]
                                } else {
                                    s.ram[j]
                                }),
                            ..s
                        }));
                    }
                    Ok(())
                }
            },
            Instr::LoadV(x) => {
                let i0 = self.i_reg as usize;
                if i0 + x as usize >= RAM_SIZE {
                    Err(Chip8Error::OutOfBoundsAccess)
                } else {
                    load_regs(&mut self.v_reg, &self.ram, i0, x as usize);
                    proof {
                        let s = old(self)@;
                        assert(self@.v =~= Seq::new(NUM_REGS as nat, |j: int|
                            if 0 <= j <= x {
                                s.ram[s.i_reg + j]
                            } else {
                                s.v[j]
                            }));
                        assert(self@ =~= (EmuView {
                            v: Seq::new(NUM_REGS as nat, |j: int|
                                if 0 <= j <= x {
                                    s.ram[s.i_reg + j]
                                } else {
                                    s.v[j]
                                }),
                            ..s
                        }));
                    }
                    Ok(())
                }
            },
            Instr::Unknown(op) => Err(Chip8Error::UnknownOpcode(op)),
        }
    }

    /// The sprite blit, the one pixel-by-pixel writer of the display.
    fn op_draw(&mut self, x: u8, y: u8, n: u8) -> (res: Result<(), Chip8Error>)
        requires
            old(self).wf(),
            x < 16,
            y < 16,
            n < 16,
        ensures
            final(self).wf(),
            final(self)@ == spec_drw(old(self)@, x, y, n).0,
            res == spec_drw(old(self)@, x, y, n).1,
    {
        let i0 = self.i_reg as usize;
        if i0 + n as usize > RAM_SIZE {
            return Err(Chip8Error::OutOfBoundsAccess);
        }
        let x0 = (self.v_reg[x as usize] % 64) as usize;
        let y0 = (self.v_reg[y as usize] % 32) as usize;
        let ghost sprite = old(self)@.ram.subrange(i0 as int, i0 as int + n as int);
        let ghost screen0 = old(self)@.screen;
        let mut hit = false;
        let mut rr: usize = 0;
        proof {
            lemma_partial_start(screen0, sprite, x0 as int, y0 as int);
        }
        while rr < n as usize
            invariant
                old(self).wf(),
                rr <= n,
                n < 16,
                x0 < 64,
                y0 < 32,
                i0 == old(self)@.i_reg,
                i0 + n <= RAM_SIZE,
                sprite == old(self)@.ram.subrange(i0 as int, i0 as int + n as int),
                sprite.len() == n as int,
                screen0 == old(self)@.screen,
                screen0.len() == SCREEN_SIZE,
                self.pc == old(self)@.pc,
                self.ram@ == old(self)@.ram,
                self.v_reg@ == old(self)@.v,
                self.i_reg == old(self)@.i_reg,
                self.sp == old(self)@.sp,
                self.stack@ == old(self)@.stack,
                self.keys@ == old(self)@.keys,
                self.dt == old(self)@.dt,
                self.st == old(self)@.st,
                self.rng == old(self)@.rng,
                self.screen@.len() == SCREEN_SIZE,
                self.screen@ == partial_draw(screen0, sprite, x0 as int, y0 as int, rr as int, 0),
                hit == partial_hit(screen0, sprite, x0 as int, y0 as int, rr as int, 0),
            decreases n as usize - rr,
        {
            let row = self.ram[i0 + rr];
            proof {
                assert(row == sprite[rr as int]);
            }
            let mut cc: usize = 0;
            while cc < 8
                invariant
                    old(self).wf(),
                    rr < n,
                    cc <= 8,
                    n < 16,
                    x0 < 64,
                    y0 < 32,
                    i0 == old(self)@.i_reg,
                    i0 + n <= RAM_SIZE,
                    sprite == old(self)@.ram.subrange(i0 as int, i0 as int + n as int),
                    sprite.len() == n as int,
                    screen0 == old(self)@.screen,
                    screen0.len() == SCREEN_SIZE,
                    row == sprite[rr as int],
                    self.pc == old(self)@.pc,
                    self.ram@ == old(self)@.ram,
                    self.v_reg@ == old(self)@.v,
                    self.i_reg == old(self)@.i_reg,
                    self.sp == old(self)@.sp,
                    self.stack@ == old(self)@.stack,
                    self.keys@ == old(self)@.keys,
                    self.dt == old(self)@.dt,
                    self.st == old(self)@.st,
                    self.rng == old(self)@.rng,
                    self.screen@.len() == SCREEN_SIZE,
                    self.screen@ == partial_draw(
                        screen0,
                        sprite,
                        x0 as int,
                        y0 as int,
                        rr as int,
                        cc as int,
                    ),
                    hit == partial_hit(screen0, sprite, x0 as int, y0 as int, rr as int, cc as int),
                decreases 8 - cc,
            {
                let bit = spr_bit_exec(row, cc);
                proof {
                    lemma_partial_bit_step(
                        screen0,
                        sprite,
                        x0 as int,
                        y0 as int,
                        rr as int,
                        cc as int,
                    );
                    lemma_pix_index(x0 as int, y0 as int, rr as int, cc as int);
                }
                if bit {
                    let px = if x0 + cc < 64 {
                        x0 + cc
                    } else {
                        x0 + cc - 64
                    };
                    let py = if y0 + rr < 32 {
                        y0 + rr
                    } else {
                        y0 + rr - 32
                    };
                    let idx = py * 64 + px;
                    proof {
                        assert(idx as int == pix_index(x0 as int, y0 as int, rr as int, cc as int));
                    }
                    let cur = self.screen[idx];
                    if cur {
                        hit = true;
                    }
                    self.screen.set(idx, !cur);
                }
                cc += 1;
            }
            proof {
                lemma_partial_row_step(screen0, sprite, x0 as int, y0 as int, rr as int);
            }
            rr += 1;
        }
        proof {
            lemma_partial_finish(screen0, sprite, x0 as int, y0 as int);
        }
        let flag: u8 = if hit {
            1
        } else {
            0
        };
        self.v_reg.set(15, flag);
        proof {
            assert(self@ =~= spec_drw(old(self)@, x, y, n).0);
        }
        Ok(())
    }

    /// Advances the machine by exactly one instruction: reads the two bytes
    /// at the program counter big-endian, moves the counter past them
    /// before acting — a jump or call thus lands on its target — and
    /// applies the decoded instruction.  On an error the machine is left
    /// exactly as the model says: the counter has advanced past the bad
    /// opcode and nothing else changed; a fetch out of bounds changes
    /// nothing at all.
    pub fn tick(&mut self) -> (res: Result<(), Chip8Error>)
        requires
            old(self).wf(),
        ensures
            final(self).wf(),
            final(self)@ == spec_step(old(self)@).0,
            res == spec_step(old(self)@).1,
    {
        if self.pc as usize + 1 >= RAM_SIZE {
            return Err(Chip8Error::OutOfBoundsAccess);
        }
        let hi = self.ram[self.pc as usize] as u16;
        let lo = self.ram[self.pc as usize + 1] as u16;
        let op = hi * 256 + lo;
        proof {
            assert(op == spec_opcode(old(self)@));
        }
        self.pc = self.pc + 2;
        proof {
            assert(self@ =~= (EmuView { pc: (old(self)@.pc + 2) as u16, ..old(self)@ }));
        }
        let i = decode(op);
        self.execute(i)
    }
}

} // verus!
