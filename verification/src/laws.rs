//! Laws of the machine, each proved against the model that the operations'
//! contracts are stated over.  The sprite-blit laws (double-XOR restoration
//! and the second blit's collision) stand beside the blit itself in
//! [`crate::draw`].
use vstd::prelude::*;

use crate::decode::{spec_decode, Instr};
use crate::emulator::{first_key_from, lemma_first_key_from};
use crate::draw::{draw_hit, draw_result, lemma_draw_twice, pix_index, spr_bit};
use crate::emulator::{initial_ram, initial_view, loaded_ram, spec_opcode, spec_step,
    spec_tick_timers, EmuView};
use crate::Chip8Error;
use crate::{FONT_ADDR, FONT_BYTES, RAM_SIZE, SCREEN_SIZE, START_ADDR};

verus! {

/// After a reset the display is all dark, the font bytes stand at the font
/// offset, and the program counter is at the program start address.  `reset`
/// ensures the machine equals `initial_view()` from every reachable state,
/// so this holds after any reset.
pub proof fn lemma_initial_state()
    ensures
        forall|p: int| 0 <= p < SCREEN_SIZE ==> !initial_view().screen[p],
        forall|i: int|
            0 <= i < FONT_BYTES ==> initial_view().ram[FONT_ADDR + i] == crate::emulator::font_seq()[i],
        initial_view().pc == START_ADDR,
        initial_view().wf(),
{
    assert(initial_view().ram == initial_ram());
}

/// Loading reproduces the program exactly: every program byte stands in
/// memory at the start address plus its offset, and every byte outside the
/// program's range keeps its value.
pub proof fn lemma_load_reproduces(ram: Seq<u8>, data: Seq<u8>)
    requires
        ram.len() == RAM_SIZE,
        data.len() <= RAM_SIZE - START_ADDR,
    ensures
        forall|k: int| 0 <= k < data.len() ==> loaded_ram(ram, data)[START_ADDR + k] == data[k],
        forall|j: int| 0 <= j < START_ADDR ==> loaded_ram(ram, data)[j] == ram[j],
        forall|j: int|
            START_ADDR + data.len() <= j < RAM_SIZE ==> loaded_ram(ram, data)[j] == ram[j],
{
}

/// The clear-screen instruction leaves every pixel dark, whatever the
/// display held before, and succeeds.
pub proof fn lemma_clear_screen_instruction(s: EmuView)
    requires
        s.wf(),
        s.pc + 1 < RAM_SIZE,
        spec_opcode(s) == 0x00E0,
    ensures
        forall|p: int| 0 <= p < SCREEN_SIZE ==> !spec_step(s).0.screen[p],
        spec_step(s).1 == Ok::<(), Chip8Error>(()),
{
    assert(spec_decode(0x00E0) == Instr::Cls);
}

/// Register addition wraps modulo 256 and records the carry in the flag
/// register: a sum over 255 leaves the flag at 1, a sum up to 255 leaves it
/// at 0.  The destination register must not itself be the flag register,
/// which the flag write overwrites.
pub proof fn lemma_add_wraparound(s: EmuView, x: u8, y: u8)
    requires
        s.wf(),
        s.pc + 1 < RAM_SIZE,
        spec_decode(spec_opcode(s)) == Instr::AddCarry(x, y),
        x < 16,
        y < 16,
        x != 15,
    ensures
        spec_step(s).1 == Ok::<(), Chip8Error>(()),
        spec_step(s).0.v[x as int] == ((s.v[x as int] + s.v[y as int]) % 256) as u8,
        s.v[x as int] + s.v[y as int] > 255 ==> spec_step(s).0.v[15] == 1,
        s.v[x as int] + s.v[y as int] <= 255 ==> spec_step(s).0.v[15] == 0,
{
}

/// Executing the identical draw instruction twice in succession restores
/// every pixel the pair touched — the XOR blend is self-inverse — and the
/// second execution's flag register reports a collision exactly when some
/// sprite bit that is 1 lands on a pixel that was clear before the first
/// draw: the first draw turned precisely those pixels on.  The coordinate
/// registers must not be the flag register, which the first draw overwrites.
pub proof fn lemma_draw_twice_instruction(s: EmuView, x: u8, y: u8, n: u8)
    requires
        s.wf(),
        s.pc + 3 < RAM_SIZE,
        spec_decode(spec_opcode(s)) == Instr::Drw(x, y, n),
        spec_decode(spec_opcode(spec_step(s).0)) == Instr::Drw(x, y, n),
        x < 16,
        y < 16,
        x != 15,
        y != 15,
        s.i_reg + n <= RAM_SIZE,
    ensures
        spec_step(s).1 == Ok::<(), Chip8Error>(()),
        spec_step(spec_step(s).0).1 == Ok::<(), Chip8Error>(()),
        spec_step(spec_step(s).0).0.screen == s.screen,
        spec_step(spec_step(s).0).0.v[15] == 1 <==> (exists|r: int, c: int|
            0 <= r < n && 0 <= c < 8 && #[trigger] spr_bit(
                s.ram.subrange(s.i_reg as int, s.i_reg as int + n)[r],
                c,
            ) && !s.screen[#[trigger] pix_index(
                s.v[x as int] as int % 64,
                s.v[y as int] as int % 32,
                r,
                c,
            )]),
{
    let x0 = s.v[x as int] as int % 64;
    let y0 = s.v[y as int] as int % 32;
    let sprite = s.ram.subrange(s.i_reg as int, s.i_reg as int + n);
    let s1 = spec_step(s).0;
    assert(s1.screen == draw_result(s.screen, sprite, x0, y0));
    assert(s1.v[x as int] == s.v[x as int] && s1.v[y as int] == s.v[y as int]);
    assert(s1.ram == s.ram && s1.i_reg == s.i_reg);
    assert(s1.ram.subrange(s.i_reg as int, s.i_reg as int + n) == sprite);
    let s2 = spec_step(s1).0;
    assert(s2.screen == draw_result(s1.screen, sprite, x0, y0));
    lemma_draw_twice(s.screen, sprite, x0, y0);
    assert(s2.v[15] == 1 <==> draw_hit(s1.screen, sprite, x0, y0));
}

/// The key-wait instruction suspends without blocking: while no key is
/// down, executing it succeeds but leaves the program counter where it was,
/// so the next step re-enters the same instruction; nothing else changes.
pub proof fn lemma_wait_key_parks(s: EmuView, x: u8)
    requires
        s.wf(),
        s.pc + 1 < RAM_SIZE,
        spec_decode(spec_opcode(s)) == Instr::LdKey(x),
        x < 16,
        forall|k: int| 0 <= k < 16 ==> !s.keys[k],
    ensures
        spec_step(s).1 == Ok::<(), Chip8Error>(()),
        spec_step(s).0 == s,
{
    lemma_first_key_from(s.keys, 0);
    assert(spec_step(s).0 =~= s);
}

/// Once a key is down, the key-wait instruction loads the lowest pressed
/// key code and the machine moves on past it.
pub proof fn lemma_wait_key_completes(s: EmuView, x: u8)
    requires
        s.wf(),
        s.pc + 1 < RAM_SIZE,
        spec_decode(spec_opcode(s)) == Instr::LdKey(x),
        x < 16,
        exists|k: int| 0 <= k < 16 && s.keys[k],
    ensures
        spec_step(s).1 == Ok::<(), Chip8Error>(()),
        spec_step(s).0.pc == s.pc + 2,
        0 <= first_key_from(s.keys, 0) < 16,
        s.keys[first_key_from(s.keys, 0)],
        spec_step(s).0.v[x as int] == first_key_from(s.keys, 0),
        forall|j: int| 0 <= j < first_key_from(s.keys, 0) ==> !s.keys[j],
{
    lemma_first_key_from(s.keys, 0);
}

/// Every step preserves well-formedness: from a well-formed machine, one
/// instruction — successful or failed — yields a well-formed machine, so
/// every reachable state keeps the structural invariant.
pub proof fn lemma_step_preserves_wf(s: EmuView)
    requires
        s.wf(),
    ensures
        spec_step(s).0.wf(),
{
}

/// A failed step mutates nothing but the program counter: either the fetch
/// itself failed and the machine is exactly as it was, or the counter has
/// advanced past the bad opcode and every other entity keeps its value.
pub proof fn lemma_error_step_mutates_nothing(s: EmuView)
    requires
        s.wf(),
    ensures
        spec_step(s).1 is Err ==> spec_step(s).0 == s || spec_step(s).0 == (EmuView {
            pc: (s.pc + 2) as u16,
            ..s
        }),
{
}

/// The machine after `k` timer ticks.
pub open spec fn iter_timers(s: EmuView, k: nat) -> EmuView
    decreases k,
{
    if k == 0 {
        s
    } else {
        spec_tick_timers(iter_timers(s, (k - 1) as nat))
    }
}

/// While ticks remain within the delay timer's value, each tick lowers it
/// by exactly one: after `k <= v` ticks a timer that held `v` holds
/// `v - k`.  In particular, exactly `v` ticks bring it to 0 and fewer leave
/// it above 0.
pub proof fn lemma_timer_decay(s: EmuView, k: nat)
    requires
        k <= s.dt,
    ensures
        iter_timers(s, k).dt == s.dt - k,
    decreases k,
{
    if k > 0 {
        lemma_timer_decay(s, (k - 1) as nat);
    }
}

/// Once at least as many ticks as the delay timer's value have passed, the
/// timer is 0 and stays 0: further ticks never take it below 0.
pub proof fn lemma_timer_floor(s: EmuView, k: nat)
    requires
        k >= s.dt,
    ensures
        iter_timers(s, k).dt == 0,
    decreases k,
{
    if k > 0 {
        if k - 1 >= s.dt {
            lemma_timer_floor(s, (k - 1) as nat);
        } else {
            lemma_timer_decay(s, (k - 1) as nat);
        }
    }
}

} // verus!
