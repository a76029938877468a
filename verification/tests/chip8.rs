use chip8_core::emulator::Emulator;
use chip8_core::keys::key2btn;
use chip8_core::Chip8Error;

fn loaded(rom: &[u8]) -> Emulator {
    let mut e = Emulator::new();
    e.load(rom).unwrap();
    e
}

fn all_dark(d: &[bool]) -> bool {
    d.iter().all(|p| !p)
}

const FONT: [u8; 80] = [
    0xF0, 0x90, 0x90, 0x90, 0xF0, 0x20, 0x60, 0x20, 0x20, 0x70, 0xF0, 0x10, 0xF0, 0x80, 0xF0,
    0xF0, 0x10, 0xF0, 0x10, 0xF0, 0x90, 0x90, 0xF0, 0x10, 0x10, 0xF0, 0x80, 0xF0, 0x10, 0xF0,
    0xF0, 0x80, 0xF0, 0x90, 0xF0, 0xF0, 0x10, 0x20, 0x40, 0x40, 0xF0, 0x90, 0xF0, 0x90, 0xF0,
    0xF0, 0x90, 0xF0, 0x10, 0xF0, 0xF0, 0x90, 0xF0, 0x90, 0x90, 0xE0, 0x90, 0xE0, 0x90, 0xE0,
    0xF0, 0x80, 0x80, 0x80, 0xF0, 0xE0, 0x90, 0x90, 0x90, 0xE0, 0xF0, 0x80, 0xF0, 0x80, 0xF0,
    0xF0, 0x80, 0xF0, 0x80, 0x80,
];

#[test]
fn reset_clears_display_and_loads_font() {
    let mut e = Emulator::new();
    assert!(all_dark(&e.get_display()));
    e.screen[77] = true;
    e.v_reg[3] = 9;
    e.dt = 14;
    e.pc = 0x300;
    e.reset();
    assert!(all_dark(&e.get_display()));
    for i in 0..80 {
        assert_eq!(e.ram[0x50 + i], FONT[i]);
    }
    assert_eq!(e.pc, 0x200);
    assert_eq!(e.dt, 0);
    assert_eq!(e.v_reg[3], 0);
}

#[test]
fn load_reproduces_bytes() {
    let e = loaded(&[0xDE, 0xAD, 0xBE, 0xEF]);
    assert_eq!(&e.ram[0x200..0x204], &[0xDE, 0xAD, 0xBE, 0xEF]);
    assert_eq!(e.ram[0x204], 0);
    assert_eq!(e.ram[0x1FF], 0);
}

#[test]
fn load_too_big_fails_and_changes_nothing() {
    let mut e = Emulator::new();
    let big = vec![7u8; 4096 - 512 + 1];
    assert_eq!(e.load(&big), Err(Chip8Error::CapacityExceeded));
    assert_eq!(e.ram[0x200], 0);
    assert_eq!(e.ram[0xFFF], 0);
    let exact = vec![7u8; 4096 - 512];
    assert_eq!(e.load(&exact), Ok(()));
    assert_eq!(e.ram[0xFFF], 7);
}

#[test]
fn clear_screen_darkens_every_pixel() {
    let mut e = loaded(&[0x00, 0xE0]);
    e.screen[0] = true;
    e.screen[2047] = true;
    assert_eq!(e.tick(), Ok(()));
    assert!(all_dark(&e.get_display()));
    assert_eq!(e.pc, 0x202);
}

#[test]
fn draw_twice_restores_display_and_reports_collision() {
    let mut e = loaded(&[0xD0, 0x12, 0xD0, 0x12]);
    e.ram[0x300] = 0xA5;
    e.ram[0x301] = 0x3C;
    e.i_reg = 0x300;
    e.v_reg[0] = 60;
    e.v_reg[1] = 30;
    let before = e.get_display();
    assert_eq!(e.tick(), Ok(()));
    assert_eq!(e.v_reg[15], 0);
    assert!(!all_dark(&e.get_display()));
    assert_eq!(e.tick(), Ok(()));
    assert_eq!(e.v_reg[15], 1);
    assert_eq!(e.get_display(), before);
}

#[test]
fn draw_wraps_around_the_edges() {
    let mut e = loaded(&[0xD0, 0x11]);
    e.ram[0x300] = 0x80;
    e.i_reg = 0x300;
    e.v_reg[0] = 63 + 64;
    e.v_reg[1] = 31 + 32;
    assert_eq!(e.tick(), Ok(()));
    let d = e.get_display();
    assert!(d[31 * 64 + 63]);
    assert_eq!(d.iter().filter(|p| **p).count(), 1);
}

#[test]
fn add_with_carry_wraps_and_sets_flag() {
    let mut e = loaded(&[0x8A, 0xB4]);
    e.v_reg[0xA] = 200;
    e.v_reg[0xB] = 100;
    assert_eq!(e.tick(), Ok(()));
    assert_eq!(e.v_reg[0xA], 44);
    assert_eq!(e.v_reg[0xF], 1);

    let mut e = loaded(&[0x8A, 0xB4]);
    e.v_reg[0xA] = 5;
    e.v_reg[0xB] = 10;
    e.v_reg[0xF] = 1;
    assert_eq!(e.tick(), Ok(()));
    assert_eq!(e.v_reg[0xA], 15);
    assert_eq!(e.v_reg[0xF], 0);
}

#[test]
fn timers_decay_to_zero_and_stay() {
    let mut e = Emulator::new();
    e.dt = 5;
    e.st = 3;
    for k in 0..5 {
        assert_eq!(e.dt, 5 - k);
        e.tick_timers();
    }
    assert_eq!(e.dt, 0);
    assert_eq!(e.st, 0);
    e.tick_timers();
    e.tick_timers();
    assert_eq!(e.dt, 0);
    assert_eq!(e.st, 0);
}

#[test]
fn sound_active_follows_sound_timer() {
    let mut e = Emulator::new();
    assert!(!e.sound_active());
    e.st = 2;
    assert!(e.sound_active());
    e.tick_timers();
    assert!(e.sound_active());
    e.tick_timers();
    assert!(!e.sound_active());
}

#[test]
fn two_instruction_scenario() {
    let mut e = loaded(&[0x6A, 0x02, 0xA0, 0x50]);
    assert_eq!(e.tick(), Ok(()));
    assert_eq!(e.tick(), Ok(()));
    assert_eq!(e.v_reg[0xA], 2);
    assert_eq!(e.i_reg, 0x050);
    assert_eq!(e.pc, 0x204);
}

#[test]
fn unknown_opcode_fails_after_advancing_pc() {
    let mut e = loaded(&[0xFF, 0xFF]);
    assert_eq!(e.tick(), Err(Chip8Error::UnknownOpcode(0xFFFF)));
    assert_eq!(e.pc, 0x202);
}

#[test]
fn nop_word_is_unknown() {
    let mut e = loaded(&[0x00, 0x00]);
    assert_eq!(e.tick(), Err(Chip8Error::UnknownOpcode(0x0000)));
}

#[test]
fn call_stack_overflows_on_seventeenth_call() {
    let mut e = loaded(&[0x22, 0x00]);
    for _ in 0..16 {
        assert_eq!(e.tick(), Ok(()));
    }
    assert_eq!(e.sp, 16);
    assert_eq!(e.tick(), Err(Chip8Error::StackOverflow));
    assert_eq!(e.sp, 16);
}

#[test]
fn return_on_empty_stack_underflows() {
    let mut e = loaded(&[0x00, 0xEE]);
    assert_eq!(e.tick(), Err(Chip8Error::StackUnderflow));
    assert_eq!(e.pc, 0x202);
}

#[test]
fn call_and_return_round_trip() {
    let mut e = loaded(&[0x22, 0x04, 0x00, 0x00, 0x00, 0xEE]);
    assert_eq!(e.tick(), Ok(()));
    assert_eq!(e.pc, 0x204);
    assert_eq!(e.sp, 1);
    assert_eq!(e.stack[0], 0x202);
    assert_eq!(e.tick(), Ok(()));
    assert_eq!(e.pc, 0x202);
    assert_eq!(e.sp, 0);
}

#[test]
fn skips_compare_immediates_and_registers() {
    let mut e = loaded(&[0x3A, 0x07]);
    e.v_reg[0xA] = 7;
    e.tick().unwrap();
    assert_eq!(e.pc, 0x204);

    let mut e = loaded(&[0x3A, 0x07]);
    e.v_reg[0xA] = 8;
    e.tick().unwrap();
    assert_eq!(e.pc, 0x202);

    let mut e = loaded(&[0x4A, 0x07]);
    e.v_reg[0xA] = 8;
    e.tick().unwrap();
    assert_eq!(e.pc, 0x204);

    let mut e = loaded(&[0x5A, 0xB0]);
    e.v_reg[0xA] = 3;
    e.v_reg[0xB] = 3;
    e.tick().unwrap();
    assert_eq!(e.pc, 0x204);

    let mut e = loaded(&[0x9A, 0xB0]);
    e.v_reg[0xA] = 3;
    e.v_reg[0xB] = 4;
    e.tick().unwrap();
    assert_eq!(e.pc, 0x204);
}

#[test]
fn bitwise_ops_combine_registers() {
    let mut e = loaded(&[0x8A, 0xB1]);
    e.v_reg[0xA] = 0b1100;
    e.v_reg[0xB] = 0b1010;
    e.tick().unwrap();
    assert_eq!(e.v_reg[0xA], 0b1110);

    let mut e = loaded(&[0x8A, 0xB2]);
    e.v_reg[0xA] = 0b1100;
    e.v_reg[0xB] = 0b1010;
    e.tick().unwrap();
    assert_eq!(e.v_reg[0xA], 0b1000);

    let mut e = loaded(&[0x8A, 0xB3]);
    e.v_reg[0xA] = 0b1100;
    e.v_reg[0xB] = 0b1010;
    e.tick().unwrap();
    assert_eq!(e.v_reg[0xA], 0b0110);
}

#[test]
fn subtraction_sets_no_borrow_flag() {
    let mut e = loaded(&[0x8A, 0xB5]);
    e.v_reg[0xA] = 9;
    e.v_reg[0xB] = 2;
    e.tick().unwrap();
    assert_eq!(e.v_reg[0xA], 7);
    assert_eq!(e.v_reg[0xF], 1);

    let mut e = loaded(&[0x8A, 0xB5]);
    e.v_reg[0xA] = 5;
    e.v_reg[0xB] = 7;
    e.tick().unwrap();
    assert_eq!(e.v_reg[0xA], 254);
    assert_eq!(e.v_reg[0xF], 0);

    let mut e = loaded(&[0x8A, 0xB7]);
    e.v_reg[0xA] = 2;
    e.v_reg[0xB] = 10;
    e.tick().unwrap();
    assert_eq!(e.v_reg[0xA], 8);
    assert_eq!(e.v_reg[0xF], 1);
}

#[test]
fn shifts_use_only_the_first_named_register() {
    let mut e = loaded(&[0x8A, 0xB6]);
    e.v_reg[0xA] = 11;
    e.v_reg[0xB] = 0xFF;
    e.tick().unwrap();
    assert_eq!(e.v_reg[0xA], 5);
    assert_eq!(e.v_reg[0xF], 1);
    assert_eq!(e.v_reg[0xB], 0xFF);

    let mut e = loaded(&[0x8A, 0xBE]);
    e.v_reg[0xA] = 0x81;
    e.v_reg[0xB] = 0xFF;
    e.tick().unwrap();
    assert_eq!(e.v_reg[0xA], 2);
    assert_eq!(e.v_reg[0xF], 1);
}

#[test]
fn jumps_land_on_their_target() {
    let mut e = loaded(&[0x1A, 0xBC]);
    e.tick().unwrap();
    assert_eq!(e.pc, 0xABC);

    let mut e = loaded(&[0xB3, 0x00]);
    e.v_reg[0] = 4;
    e.tick().unwrap();
    assert_eq!(e.pc, 0x304);
}

#[test]
fn random_load_is_masked_and_deterministic() {
    let mut e = loaded(&[0xC0, 0x00]);
    e.tick().unwrap();
    assert_eq!(e.v_reg[0], 0);

    let mut a = loaded(&[0xC0, 0xFF]);
    let mut b = loaded(&[0xC0, 0xFF]);
    a.tick().unwrap();
    b.tick().unwrap();
    assert_eq!(a.v_reg[0], b.v_reg[0]);
}

#[test]
fn key_skips_read_the_input_state() {
    let mut e = loaded(&[0xE0, 0x9E]);
    e.v_reg[0] = 4;
    e.keypress(4, true);
    e.tick().unwrap();
    assert_eq!(e.pc, 0x204);

    let mut e = loaded(&[0xE0, 0x9E]);
    e.v_reg[0] = 4;
    e.tick().unwrap();
    assert_eq!(e.pc, 0x202);

    let mut e = loaded(&[0xE0, 0xA1]);
    e.v_reg[0] = 4;
    e.tick().unwrap();
    assert_eq!(e.pc, 0x204);
}

#[test]
fn wait_key_parks_until_a_key_is_down() {
    let mut e = loaded(&[0xF3, 0x0A]);
    e.tick().unwrap();
    assert_eq!(e.pc, 0x200);
    e.tick().unwrap();
    assert_eq!(e.pc, 0x200);
    e.keypress(7, true);
    e.tick().unwrap();
    assert_eq!(e.pc, 0x202);
    assert_eq!(e.v_reg[3], 7);
}

#[test]
fn wait_key_takes_the_lowest_pressed_code() {
    let mut e = loaded(&[0xF3, 0x0A]);
    e.keypress(9, true);
    e.keypress(2, true);
    e.tick().unwrap();
    assert_eq!(e.v_reg[3], 2);
}

#[test]
fn keypress_ignores_codes_past_the_keypad() {
    let mut e = Emulator::new();
    e.keypress(16, true);
    e.keypress(100, true);
    assert!(e.keys.iter().all(|k| !k));
}

#[test]
fn timer_loads_move_through_registers() {
    let mut e = loaded(&[0xF2, 0x15, 0xF5, 0x07, 0xF2, 0x18]);
    e.v_reg[2] = 42;
    e.tick().unwrap();
    assert_eq!(e.dt, 42);
    e.tick().unwrap();
    assert_eq!(e.v_reg[5], 42);
    e.tick().unwrap();
    assert_eq!(e.st, 42);
}

#[test]
fn index_add_wraps_modulo_sixteen_bits() {
    let mut e = loaded(&[0xF0, 0x1E]);
    e.i_reg = 0xFFF0;
    e.v_reg[0] = 0x20;
    e.tick().unwrap();
    assert_eq!(e.i_reg, 0x10);
}

#[test]
fn immediate_add_wraps_without_flag() {
    let mut e = loaded(&[0x7A, 0xFF]);
    e.v_reg[0xA] = 2;
    e.tick().unwrap();
    assert_eq!(e.v_reg[0xA], 1);
    assert_eq!(e.v_reg[0xF], 0);
}

#[test]
fn font_lookup_points_into_the_font_table() {
    let mut e = loaded(&[0xF0, 0x29]);
    e.v_reg[0] = 0xA;
    e.tick().unwrap();
    assert_eq!(e.i_reg, 0x50 + 5 * 0xA);
    assert_eq!(e.ram[e.i_reg as usize], 0xF0);
}

#[test]
fn bcd_stores_decimal_digits() {
    let mut e = loaded(&[0xF3, 0x33]);
    e.v_reg[3] = 234;
    e.i_reg = 0x400;
    e.tick().unwrap();
    assert_eq!(&e.ram[0x400..0x403], &[2, 3, 4]);
}

#[test]
fn register_dump_and_load_round_trip() {
    let mut e = loaded(&[0xF2, 0x55, 0xF2, 0x65]);
    e.v_reg[0] = 1;
    e.v_reg[1] = 2;
    e.v_reg[2] = 3;
    e.v_reg[3] = 99;
    e.i_reg = 0x500;
    e.tick().unwrap();
    assert_eq!(&e.ram[0x500..0x503], &[1, 2, 3]);
    assert_eq!(e.ram[0x503], 0);
    e.v_reg[0] = 0;
    e.v_reg[1] = 0;
    e.v_reg[2] = 0;
    e.tick().unwrap();
    assert_eq!(e.v_reg[0], 1);
    assert_eq!(e.v_reg[1], 2);
    assert_eq!(e.v_reg[2], 3);
    assert_eq!(e.v_reg[3], 99);
}

#[test]
fn memory_ops_past_the_top_fail() {
    let mut e = loaded(&[0xF3, 0x33]);
    e.i_reg = 0xFFE;
    assert_eq!(e.tick(), Err(Chip8Error::OutOfBoundsAccess));

    let mut e = loaded(&[0xF2, 0x55]);
    e.i_reg = 0xFFE;
    assert_eq!(e.tick(), Err(Chip8Error::OutOfBoundsAccess));

    let mut e = loaded(&[0xD0, 0x12]);
    e.i_reg = 0xFFF;
    assert_eq!(e.tick(), Err(Chip8Error::OutOfBoundsAccess));
    assert!(all_dark(&e.get_display()));
}

#[test]
fn fetch_past_the_top_fails_without_moving() {
    let mut e = Emulator::new();
    e.pc = 4095;
    assert_eq!(e.tick(), Err(Chip8Error::OutOfBoundsAccess));
    assert_eq!(e.pc, 4095);
}

#[test]
fn key2btn_maps_the_qwerty_block() {
    let expect = [
        ("1", 0x1),
        ("2", 0x2),
        ("3", 0x3),
        ("4", 0xC),
        ("q", 0x4),
        ("w", 0x5),
        ("e", 0x6),
        ("r", 0xD),
        ("a", 0x7),
        ("s", 0x8),
        ("d", 0x9),
        ("f", 0xE),
        ("z", 0xA),
        ("x", 0x0),
        ("c", 0xB),
        ("v", 0xF),
    ];
    for (name, code) in expect {
        assert_eq!(key2btn(name), Some(code));
    }
    assert_eq!(key2btn("5"), None);
    assert_eq!(key2btn(""), None);
    assert_eq!(key2btn("qw"), None);
}
