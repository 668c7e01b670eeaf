//! End-to-end tests of the interpreter: every opcode family, the documented
//! edge cases, and one input for each error variant.

use chip8::cpu::Cpu;
use chip8::model::EmuError;

/// Builds a machine with the given instruction words loaded as a program.
fn boot(words: &[u16]) -> Cpu {
    let mut bytes: Vec<u8> = Vec::new();
    for w in words {
        bytes.push((w >> 8) as u8);
        bytes.push((w & 0xFF) as u8);
    }
    let mut cpu = Cpu::new();
    cpu.load_rom(&bytes).expect("program fits in memory");
    cpu
}

/// Runs `n` cycles with a fixed random byte, expecting each to succeed.
fn run(cpu: &mut Cpu, n: usize) {
    for _ in 0..n {
        cpu.cycle_with_random(0).expect("cycle succeeds");
    }
}

#[test]
fn load_immediate_sets_register_and_advances_pc() {
    let mut cpu = boot(&[0x632A]);
    run(&mut cpu, 1);
    assert_eq!(cpu.register(3), 0x2A);
    assert_eq!(cpu.pc(), 0x202);
}

#[test]
fn add_immediate_wraps_and_leaves_vf_alone() {
    let mut cpu = boot(&[0x60FF, 0x6F05, 0x7001]);
    run(&mut cpu, 3);
    assert_eq!(cpu.register(0), 0x00);
    assert_eq!(cpu.register(0xF), 0x05);
}

#[test]
fn add_registers_sets_carry() {
    let mut cpu = boot(&[0x60FF, 0x6101, 0x8014]);
    run(&mut cpu, 3);
    assert_eq!(cpu.register(0), 0x00);
    assert_eq!(cpu.register(0xF), 1);

    let mut cpu = boot(&[0x6001, 0x6101, 0x8014]);
    run(&mut cpu, 3);
    assert_eq!(cpu.register(0), 0x02);
    assert_eq!(cpu.register(0xF), 0);
}

#[test]
fn sub_registers_sets_no_borrow_flag() {
    let mut cpu = boot(&[0x6005, 0x6103, 0x8015]);
    run(&mut cpu, 3);
    assert_eq!(cpu.register(0), 0x02);
    assert_eq!(cpu.register(0xF), 1);

    let mut cpu = boot(&[0x6003, 0x6105, 0x8015]);
    run(&mut cpu, 3);
    assert_eq!(cpu.register(0), 0xFE);
    assert_eq!(cpu.register(0xF), 0);
}

#[test]
fn sub_equal_values_has_no_borrow() {
    let mut cpu = boot(&[0x6007, 0x6107, 0x8015]);
    run(&mut cpu, 3);
    assert_eq!(cpu.register(0), 0x00);
    assert_eq!(cpu.register(0xF), 1);
}

#[test]
fn call_and_return_round_trip() {
    // 0x200: call 0x204;  0x202: V0 := 1;  0x204: return
    let mut cpu = boot(&[0x2204, 0x6001, 0x00EE]);
    run(&mut cpu, 1);
    assert_eq!(cpu.pc(), 0x204);
    assert_eq!(cpu.stack_depth(), 1);
    run(&mut cpu, 1);
    assert_eq!(cpu.pc(), 0x202);
    assert_eq!(cpu.stack_depth(), 0);
    run(&mut cpu, 1);
    assert_eq!(cpu.register(0), 1);
}

#[test]
fn clear_draw_clear_leaves_framebuffer_zero() {
    // clear, point I at the zero glyph, draw it, clear again
    let mut cpu = boot(&[0x00E0, 0xA050, 0xD015, 0x00E0]);
    run(&mut cpu, 4);
    for y in 0..32 {
        for x in 0..64 {
            assert_eq!(cpu.pixel(x, y), 0);
        }
    }
    assert!(cpu.draw_flag());
}

#[test]
fn drawing_twice_restores_the_framebuffer() {
    let mut cpu = boot(&[0xA050, 0xD015, 0xD015]);
    run(&mut cpu, 2);
    // the zero glyph's top row is 0xF0: its first four pixels are lit
    assert_eq!(cpu.pixel(0, 0), 1);
    assert_eq!(cpu.pixel(3, 0), 1);
    assert_eq!(cpu.pixel(4, 0), 0);
    assert_eq!(cpu.register(0xF), 0);
    run(&mut cpu, 1);
    for y in 0..32 {
        for x in 0..64 {
            assert_eq!(cpu.pixel(x, y), 0);
        }
    }
    // the second draw collided on every lit pixel
    assert_eq!(cpu.register(0xF), 1);
}

#[test]
fn draw_wraps_at_both_edges() {
    // draw the zero glyph anchored at (62, 30)
    let mut cpu = boot(&[0x603E, 0x611E, 0xA050, 0xD015]);
    run(&mut cpu, 4);
    // top row 0xF0 lands on screen row 30, columns 62, 63, 0, 1
    assert_eq!(cpu.pixel(62, 30), 1);
    assert_eq!(cpu.pixel(63, 30), 1);
    assert_eq!(cpu.pixel(0, 30), 1);
    assert_eq!(cpu.pixel(1, 30), 1);
    assert_eq!(cpu.pixel(2, 30), 0);
    // the glyph's second row 0x90 wraps to screen row 31, its third to row 0
    assert_eq!(cpu.pixel(62, 31), 1);
    assert_eq!(cpu.pixel(63, 31), 0);
    assert_eq!(cpu.pixel(1, 31), 1);
    assert_eq!(cpu.pixel(62, 0), 1);
    assert_eq!(cpu.pixel(1, 0), 1);
}

#[test]
fn drawing_blank_sprite_leaves_dirty_flag_down() {
    // memory at 0x300 holds zeroes; a one-row draw of it changes nothing
    let mut cpu = boot(&[0xA300, 0xD001]);
    run(&mut cpu, 2);
    assert!(!cpu.draw_flag());
}

#[test]
fn dirty_flag_rises_on_draw_and_clears_on_request() {
    let mut cpu = boot(&[0xA050, 0xD015]);
    run(&mut cpu, 2);
    assert!(cpu.draw_flag());
    cpu.clear_draw_flag();
    assert!(!cpu.draw_flag());
}

#[test]
fn wait_for_key_spins_until_pressed_and_takes_lowest() {
    let mut cpu = boot(&[0xF50A]);
    let pc_before = cpu.pc();
    run(&mut cpu, 1);
    assert_eq!(cpu.pc(), pc_before);
    run(&mut cpu, 1);
    assert_eq!(cpu.pc(), pc_before);
    cpu.set_key(7, true);
    cpu.set_key(3, true);
    run(&mut cpu, 1);
    assert_eq!(cpu.register(5), 3);
    assert_eq!(cpu.pc(), 0x202);
}

#[test]
fn fontset_is_resident_and_survives_loading() {
    let cpu = Cpu::new();
    assert_eq!(cpu.memory_byte(0x50), 0xF0);
    assert_eq!(cpu.memory_byte(0x51), 0x90);
    assert_eq!(cpu.memory_byte(0x52), 0x90);
    assert_eq!(cpu.memory_byte(0x53), 0x90);
    assert_eq!(cpu.memory_byte(0x54), 0xF0);

    let mut cpu = Cpu::new();
    let rom = vec![0xAB; 3000];
    cpu.load_rom(&rom).expect("program fits in memory");
    assert_eq!(cpu.memory_byte(0x50), 0xF0);
    assert_eq!(cpu.memory_byte(0x51), 0x90);
    assert_eq!(cpu.memory_byte(0x52), 0x90);
    assert_eq!(cpu.memory_byte(0x53), 0x90);
    assert_eq!(cpu.memory_byte(0x54), 0xF0);
    assert_eq!(cpu.memory_byte(0x200), 0xAB);
    assert_eq!(cpu.memory_byte(0x200 + 2999), 0xAB);
}

#[test]
fn timers_never_underflow() {
    let mut cpu = Cpu::new();
    assert_eq!(cpu.delay_timer(), 0);
    assert_eq!(cpu.sound_timer(), 0);
    cpu.tick_timers();
    assert_eq!(cpu.delay_timer(), 0);
    assert_eq!(cpu.sound_timer(), 0);
}

#[test]
fn timers_decay_by_one_per_tick() {
    let mut cpu = boot(&[0x6002, 0xF015, 0xF018]);
    run(&mut cpu, 3);
    assert_eq!(cpu.delay_timer(), 2);
    assert_eq!(cpu.sound_timer(), 2);
    cpu.tick_timers();
    assert_eq!(cpu.delay_timer(), 1);
    assert_eq!(cpu.sound_timer(), 1);
    cpu.tick_timers();
    cpu.tick_timers();
    assert_eq!(cpu.delay_timer(), 0);
    assert_eq!(cpu.sound_timer(), 0);
}

#[test]
fn cycle_does_not_touch_timers() {
    let mut cpu = boot(&[0x6005, 0xF015, 0x6000, 0x6000]);
    run(&mut cpu, 4);
    assert_eq!(cpu.delay_timer(), 5);
}

#[test]
fn read_delay_timer_into_register() {
    let mut cpu = boot(&[0x6007, 0xF015, 0xF107]);
    run(&mut cpu, 3);
    assert_eq!(cpu.register(1), 7);
}

#[test]
fn unknown_opcode_is_a_fatal_error() {
    let mut cpu = boot(&[0x0123]);
    let res = cpu.cycle_with_random(0);
    assert_eq!(res, Err(EmuError::UnknownOpcode { opcode: 0x0123, pc: 0x200 }));
    // the machine stands just past the fetch
    assert_eq!(cpu.pc(), 0x202);
    assert_eq!(cpu.opcode(), 0x0123);
}

#[test]
fn unknown_subcodes_are_fatal_errors() {
    let mut cpu = boot(&[0x8008]);
    assert_eq!(
        cpu.cycle_with_random(0),
        Err(EmuError::UnknownOpcode { opcode: 0x8008, pc: 0x200 })
    );
    let mut cpu = boot(&[0xE001]);
    assert_eq!(
        cpu.cycle_with_random(0),
        Err(EmuError::UnknownOpcode { opcode: 0xE001, pc: 0x200 })
    );
    let mut cpu = boot(&[0xF0FF]);
    assert_eq!(
        cpu.cycle_with_random(0),
        Err(EmuError::UnknownOpcode { opcode: 0xF0FF, pc: 0x200 })
    );
}

#[test]
fn empty_memory_decodes_to_an_error_not_a_crash() {
    let mut cpu = Cpu::new();
    assert_eq!(
        cpu.cycle_with_random(0),
        Err(EmuError::UnknownOpcode { opcode: 0x0000, pc: 0x200 })
    );
}

#[test]
fn return_on_empty_stack_is_fatal() {
    let mut cpu = boot(&[0x00EE]);
    assert_eq!(cpu.cycle_with_random(0), Err(EmuError::StackUnderflow { pc: 0x200 }));
}

#[test]
fn seventeenth_nested_call_overflows_the_stack() {
    // a chain of calls, each to the next word
    let mut words = Vec::new();
    for k in 0..17u16 {
        words.push(0x2000 | (0x202 + 2 * k));
    }
    let mut cpu = boot(&words);
    for _ in 0..16 {
        cpu.cycle_with_random(0).expect("the first sixteen calls fit");
    }
    assert_eq!(cpu.stack_depth(), 16);
    assert_eq!(cpu.cycle_with_random(0), Err(EmuError::StackOverflow { pc: 0x220 }));
}

#[test]
fn oversized_program_is_refused_untouched() {
    let mut cpu = Cpu::new();
    let rom = vec![0u8; 4096 - 0x200 + 1];
    assert_eq!(cpu.load_rom(&rom), Err(EmuError::OutOfBounds));
    assert_eq!(cpu.pc(), 0x200);
    assert_eq!(cpu.memory_byte(0x200), 0);

    let mut cpu = Cpu::new();
    let rom = vec![7u8; 4096 - 0x200];
    cpu.load_rom(&rom).expect("a program of exactly the free space fits");
    assert_eq!(cpu.memory_byte(4095), 7);
}

#[test]
fn skip_if_equal_immediate() {
    let mut cpu = boot(&[0x6305, 0x3305]);
    run(&mut cpu, 2);
    assert_eq!(cpu.pc(), 0x206);

    let mut cpu = boot(&[0x6305, 0x3306]);
    run(&mut cpu, 2);
    assert_eq!(cpu.pc(), 0x204);
}

#[test]
fn skip_if_not_equal_immediate() {
    let mut cpu = boot(&[0x6305, 0x4306]);
    run(&mut cpu, 2);
    assert_eq!(cpu.pc(), 0x206);

    let mut cpu = boot(&[0x6305, 0x4305]);
    run(&mut cpu, 2);
    assert_eq!(cpu.pc(), 0x204);
}

#[test]
fn skip_on_register_comparison() {
    let mut cpu = boot(&[0x6305, 0x6405, 0x5340]);
    run(&mut cpu, 3);
    assert_eq!(cpu.pc(), 0x208);

    let mut cpu = boot(&[0x6305, 0x6406, 0x5340]);
    run(&mut cpu, 3);
    assert_eq!(cpu.pc(), 0x206);

    let mut cpu = boot(&[0x6305, 0x6406, 0x9340]);
    run(&mut cpu, 3);
    assert_eq!(cpu.pc(), 0x208);

    let mut cpu = boot(&[0x6305, 0x6405, 0x9340]);
    run(&mut cpu, 3);
    assert_eq!(cpu.pc(), 0x206);
}

#[test]
fn jump_sets_pc() {
    let mut cpu = boot(&[0x1234]);
    run(&mut cpu, 1);
    assert_eq!(cpu.pc(), 0x234);
}

#[test]
fn jump_with_offset_adds_v0() {
    let mut cpu = boot(&[0x6010, 0xB300]);
    run(&mut cpu, 2);
    assert_eq!(cpu.pc(), 0x310);
}

#[test]
fn load_index_register() {
    let mut cpu = boot(&[0xA123]);
    run(&mut cpu, 1);
    assert_eq!(cpu.index_reg(), 0x123);
}

#[test]
fn register_copy_and_bitwise_ops() {
    let mut cpu = boot(&[0x600C, 0x610A, 0x8011]);
    run(&mut cpu, 3);
    assert_eq!(cpu.register(0), 0x0E);
    let mut cpu = boot(&[0x600C, 0x610A, 0x8012]);
    run(&mut cpu, 3);
    assert_eq!(cpu.register(0), 0x08);
    let mut cpu = boot(&[0x600C, 0x610A, 0x8013]);
    run(&mut cpu, 3);
    assert_eq!(cpu.register(0), 0x06);
    let mut cpu = boot(&[0x600C, 0x610A, 0x8100]);
    run(&mut cpu, 3);
    assert_eq!(cpu.register(1), 0x0C);
}

#[test]
fn shift_right_reports_low_bit() {
    let mut cpu = boot(&[0x6005, 0x8016]);
    run(&mut cpu, 2);
    assert_eq!(cpu.register(0), 2);
    assert_eq!(cpu.register(0xF), 1);

    let mut cpu = boot(&[0x6004, 0x8016]);
    run(&mut cpu, 2);
    assert_eq!(cpu.register(0), 2);
    assert_eq!(cpu.register(0xF), 0);
}

#[test]
fn shift_left_reports_high_bit_and_truncates() {
    let mut cpu = boot(&[0x6081, 0x801E]);
    run(&mut cpu, 2);
    assert_eq!(cpu.register(0), 0x02);
    assert_eq!(cpu.register(0xF), 1);

    let mut cpu = boot(&[0x6041, 0x801E]);
    run(&mut cpu, 2);
    assert_eq!(cpu.register(0), 0x82);
    assert_eq!(cpu.register(0xF), 0);
}

#[test]
fn reverse_subtract() {
    let mut cpu = boot(&[0x6003, 0x6105, 0x8017]);
    run(&mut cpu, 3);
    assert_eq!(cpu.register(0), 2);
    assert_eq!(cpu.register(0xF), 1);

    let mut cpu = boot(&[0x6005, 0x6103, 0x8017]);
    run(&mut cpu, 3);
    assert_eq!(cpu.register(0), 0xFE);
    assert_eq!(cpu.register(0xF), 0);
}

#[test]
fn random_byte_is_masked() {
    let mut cpu = boot(&[0xC0F0]);
    cpu.cycle_with_random(0xAB).expect("cycle succeeds");
    assert_eq!(cpu.register(0), 0xA0);

    // whatever the machine's own source hands back, the mask holds
    let mut cpu = boot(&[0xC00F]);
    cpu.cycle().expect("cycle succeeds");
    assert_eq!(cpu.register(0) & 0xF0, 0);

    let mut cpu = boot(&[0xC000]);
    cpu.cycle().expect("cycle succeeds");
    assert_eq!(cpu.register(0), 0);
}

#[test]
fn skip_if_key_pressed_consumes_the_key() {
    let mut cpu = boot(&[0x6004, 0xE09E]);
    cpu.set_key(4, true);
    run(&mut cpu, 2);
    assert_eq!(cpu.pc(), 0x206);
    assert!(!cpu.key(4));

    let mut cpu = boot(&[0x6004, 0xE09E]);
    run(&mut cpu, 2);
    assert_eq!(cpu.pc(), 0x204);
}

#[test]
fn skip_if_key_not_pressed() {
    let mut cpu = boot(&[0x6004, 0xE0A1]);
    run(&mut cpu, 2);
    assert_eq!(cpu.pc(), 0x206);

    let mut cpu = boot(&[0x6004, 0xE0A1]);
    cpu.set_key(4, true);
    run(&mut cpu, 2);
    assert_eq!(cpu.pc(), 0x204);
    assert!(!cpu.key(4));
}

#[test]
fn key_index_is_masked_to_a_nibble() {
    // V0 holds 0x14; only its low nibble names the key
    let mut cpu = boot(&[0x6014, 0xE09E]);
    cpu.set_key(4, true);
    run(&mut cpu, 2);
    assert_eq!(cpu.pc(), 0x206);
}

#[test]
fn index_add_wraps_modulo_memory_size() {
    let mut cpu = boot(&[0xAFFF, 0x6002, 0xF01E]);
    run(&mut cpu, 3);
    assert_eq!(cpu.index_reg(), 1);
}

#[test]
fn glyph_address_uses_low_nibble() {
    let mut cpu = boot(&[0x600A, 0xF029]);
    run(&mut cpu, 2);
    assert_eq!(cpu.index_reg(), 0x50 + 5 * 0xA);

    let mut cpu = boot(&[0x601A, 0xF029]);
    run(&mut cpu, 2);
    assert_eq!(cpu.index_reg(), 0x50 + 5 * 0xA);
}

#[test]
fn binary_coded_decimal() {
    let mut cpu = boot(&[0x60EA, 0xA300, 0xF033]);
    run(&mut cpu, 3);
    assert_eq!(cpu.memory_byte(0x300), 2);
    assert_eq!(cpu.memory_byte(0x301), 3);
    assert_eq!(cpu.memory_byte(0x302), 4);
}

#[test]
fn store_and_load_register_block() {
    let mut cpu = boot(&[
        0x6011, 0x6122, 0x6233, 0xA300, 0xF255, // store V0..V2 at 0x300
        0x6000, 0x6100, 0x6200, // wipe them
        0xF265, // load V0..V2 back
    ]);
    run(&mut cpu, 5);
    assert_eq!(cpu.memory_byte(0x300), 0x11);
    assert_eq!(cpu.memory_byte(0x301), 0x22);
    assert_eq!(cpu.memory_byte(0x302), 0x33);
    run(&mut cpu, 4);
    assert_eq!(cpu.register(0), 0x11);
    assert_eq!(cpu.register(1), 0x22);
    assert_eq!(cpu.register(2), 0x33);
    // the block transfer stops at Vx: V3 was never written
    assert_eq!(cpu.register(3), 0);
}

#[test]
fn cycle_with_machine_randomness_runs_deterministic_opcodes() {
    let mut cpu = boot(&[0x632A, 0x7301]);
    cpu.cycle().expect("cycle succeeds");
    cpu.cycle().expect("cycle succeeds");
    assert_eq!(cpu.register(3), 0x2B);
    assert_eq!(cpu.pc(), 0x204);
}

#[test]
fn key_wait_spin_still_lets_timers_decay() {
    let mut cpu = boot(&[0x6003, 0xF015, 0xF00A]);
    run(&mut cpu, 2);
    assert_eq!(cpu.delay_timer(), 3);
    // the machine spins on the key wait; host ticks keep decaying the timer
    run(&mut cpu, 1);
    cpu.tick_timers();
    run(&mut cpu, 1);
    cpu.tick_timers();
    assert_eq!(cpu.pc(), 0x204);
    assert_eq!(cpu.delay_timer(), 1);
}

#[test]
fn opcode_register_holds_last_fetch() {
    let mut cpu = boot(&[0x632A]);
    run(&mut cpu, 1);
    assert_eq!(cpu.opcode(), 0x632A);
}
