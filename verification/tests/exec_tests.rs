use chip8::{Chip8, Chip8Error, ScriptedGraphics};

/// A machine over the scripted 64 by 32 backend, unthrottled, with the
/// given program image loaded.
fn machine_with(rom: &[u8]) -> Chip8<ScriptedGraphics> {
    Chip8::with_rom(0, ScriptedGraphics::new(0, vec![], vec![]), rom)
}

fn run_steps(c8: &mut Chip8<ScriptedGraphics>, n: usize) {
    for _ in 0..n {
        c8.step().expect("step failed");
    }
}

#[test]
fn glyph_table_sits_at_the_base_of_memory() {
    let c8 = machine_with(&[]);
    assert_eq!(c8.mem_byte(0), 0xF0);
    assert_eq!(c8.mem_byte(5), 0x20);
    assert_eq!(c8.mem_byte(79), 0x80);
    assert_eq!(c8.pc(), 0x200);
    assert_eq!(c8.sp(), 0);
    assert_eq!(c8.screen_cols(), 64);
    assert_eq!(c8.screen_rows(), 32);
}

#[test]
fn registers_start_cleared() {
    let r = chip8::Registers::new();
    assert_eq!(r.pc, 0);
    assert_eq!(r.i, 0);
    assert_eq!(r.sp, 0);
    assert_eq!(r.dt, 0);
    assert_eq!(r.st, 0);
    assert_eq!(r.v, vec![0u8; 16]);
}

#[test]
fn scenario_load_immediate() {
    let mut c8 = machine_with(&[0x61, 0x05]);
    run_steps(&mut c8, 1);
    assert_eq!(c8.reg_v(1), 0x05);
    assert_eq!(c8.pc(), 0x202);
}

#[test]
fn scenario_add_immediate() {
    let mut c8 = machine_with(&[0x61, 0x05, 0x71, 0x05]);
    run_steps(&mut c8, 2);
    assert_eq!(c8.reg_v(1), 0x0A);
}

#[test]
fn scenario_set_index() {
    let mut c8 = machine_with(&[0xA2, 0x10]);
    run_steps(&mut c8, 1);
    assert_eq!(c8.index_reg(), 0x210);
}

#[test]
fn scenario_binary_coded_decimal() {
    // v0 = 156, index at 0x300, then the decimal store
    let mut c8 = machine_with(&[0x60, 0x9C, 0xA3, 0x00, 0xF0, 0x33]);
    run_steps(&mut c8, 3);
    assert_eq!(c8.mem_byte(0x300), 1);
    assert_eq!(c8.mem_byte(0x301), 5);
    assert_eq!(c8.mem_byte(0x302), 6);
}

#[test]
fn scenario_clear_screen() {
    // draw glyph 0 at the origin, then clear
    let mut c8 = machine_with(&[0xA0, 0x00, 0xD0, 0x05, 0x00, 0xE0]);
    run_steps(&mut c8, 2);
    assert_eq!(c8.pixel(0, 0), 1);
    run_steps(&mut c8, 1);
    for r in 0..c8.screen_rows() {
        for c in 0..c8.screen_cols() {
            assert_eq!(c8.pixel(r, c), 0);
        }
    }
}

#[test]
fn scenario_undecodable_word_is_fatal() {
    let mut c8 = machine_with(&[0x80, 0x09]);
    assert_eq!(c8.step(), Err(Chip8Error::InvalidOpcode(0x8009)));
}

#[test]
fn add_with_carry_sets_and_clears_the_flag() {
    let mut c8 = machine_with(&[0x60, 0xFF, 0x61, 0x02, 0x80, 0x14]);
    run_steps(&mut c8, 3);
    assert_eq!(c8.reg_v(0), 0x01);
    assert_eq!(c8.reg_v(0xF), 1);

    let mut c8 = machine_with(&[0x60, 0x0F, 0x61, 0x01, 0x80, 0x14]);
    run_steps(&mut c8, 3);
    assert_eq!(c8.reg_v(0), 0x10);
    assert_eq!(c8.reg_v(0xF), 0);
}

#[test]
fn subtract_with_borrow_flags_no_borrow() {
    let mut c8 = machine_with(&[0x60, 0x05, 0x61, 0x03, 0x80, 0x15]);
    run_steps(&mut c8, 3);
    assert_eq!(c8.reg_v(0), 2);
    assert_eq!(c8.reg_v(0xF), 1);

    let mut c8 = machine_with(&[0x60, 0x03, 0x61, 0x05, 0x80, 0x15]);
    run_steps(&mut c8, 3);
    assert_eq!(c8.reg_v(0), 254);
    assert_eq!(c8.reg_v(0xF), 0);
}

#[test]
fn subtract_reverse_with_borrow() {
    let mut c8 = machine_with(&[0x60, 0x03, 0x61, 0x05, 0x80, 0x17]);
    run_steps(&mut c8, 3);
    assert_eq!(c8.reg_v(0), 2);
    assert_eq!(c8.reg_v(0xF), 1);
}

#[test]
fn shift_right_captures_the_low_bit() {
    let mut c8 = machine_with(&[0x60, 0x05, 0x80, 0x16]);
    run_steps(&mut c8, 2);
    assert_eq!(c8.reg_v(0), 2);
    assert_eq!(c8.reg_v(0xF), 1);
}

#[test]
fn shift_left_captures_the_top_bit_masked() {
    let mut c8 = machine_with(&[0x60, 0x81, 0x80, 0x1E]);
    run_steps(&mut c8, 2);
    assert_eq!(c8.reg_v(0), 0x02);
    assert_eq!(c8.reg_v(0xF), 0x80);

    let mut c8 = machine_with(&[0x60, 0x41, 0x80, 0x1E]);
    run_steps(&mut c8, 2);
    assert_eq!(c8.reg_v(0), 0x82);
    assert_eq!(c8.reg_v(0xF), 0);
}

#[test]
fn call_then_ret_restores_the_program_counter() {
    // CALL 0x300 at 0x200; RET at 0x300
    let mut rom = vec![0u8; 0x102];
    rom[0] = 0x23;
    rom[1] = 0x00;
    rom[0x100] = 0x00;
    rom[0x101] = 0xEE;
    let mut c8 = machine_with(&rom);
    run_steps(&mut c8, 1);
    assert_eq!(c8.pc(), 0x300);
    assert_eq!(c8.sp(), 1);
    assert_eq!(c8.stack_at(0), 0x202);
    run_steps(&mut c8, 1);
    assert_eq!(c8.pc(), 0x202);
    assert_eq!(c8.sp(), 0);
}

#[test]
fn skip_if_equal_advances_past_one_instruction() {
    let mut c8 = machine_with(&[0x60, 0x05, 0x30, 0x05]);
    run_steps(&mut c8, 2);
    assert_eq!(c8.pc(), 0x206);

    let mut c8 = machine_with(&[0x60, 0x05, 0x30, 0x06]);
    run_steps(&mut c8, 2);
    assert_eq!(c8.pc(), 0x204);
}

#[test]
fn timers_load_and_tick_down_saturating() {
    let mut c8 = machine_with(&[0x60, 0x02, 0xF0, 0x15, 0xF0, 0x18]);
    run_steps(&mut c8, 3);
    assert_eq!(c8.delay_timer(), 2);
    assert_eq!(c8.sound_timer(), 2);
    assert!(c8.tick_timers());
    assert_eq!(c8.delay_timer(), 1);
    assert_eq!(c8.sound_timer(), 1);
    assert!(!c8.tick_timers());
    assert_eq!(c8.delay_timer(), 0);
    assert_eq!(c8.sound_timer(), 0);
    assert!(!c8.tick_timers());
    assert_eq!(c8.delay_timer(), 0);
    assert_eq!(c8.sound_timer(), 0);
}

#[test]
fn delay_timer_reads_back() {
    let mut c8 = machine_with(&[0x60, 0x07, 0xF0, 0x15, 0xF1, 0x07]);
    run_steps(&mut c8, 3);
    assert_eq!(c8.reg_v(1), 7);
}

#[test]
fn return_with_empty_stack_is_fatal() {
    let mut c8 = machine_with(&[0x00, 0xEE]);
    assert_eq!(c8.step(), Err(Chip8Error::StackUnderflow));
}

#[test]
fn seventeenth_nested_call_is_fatal() {
    // a call that calls itself: every cycle pushes one return address
    let mut c8 = machine_with(&[0x22, 0x00]);
    for _ in 0..16 {
        c8.step().expect("call within stack bounds failed");
    }
    assert_eq!(c8.sp(), 16);
    assert_eq!(c8.step(), Err(Chip8Error::StackOverflow));
}

#[test]
fn fetch_past_memory_is_fatal() {
    let mut c8 = machine_with(&[0x1F, 0xFF]);
    run_steps(&mut c8, 1);
    assert_eq!(c8.step(), Err(Chip8Error::PcOutOfRange(0xFFF)));
}

#[test]
fn sprite_read_past_memory_is_fatal() {
    let mut c8 = machine_with(&[0xAF, 0xFF, 0xD0, 0x02]);
    run_steps(&mut c8, 1);
    assert_eq!(c8.step(), Err(Chip8Error::MemoryOutOfRange));
}

#[test]
fn index_carry_past_sixteen_bits_is_fatal() {
    // v0 = 255, then add-to-index until the index register would overflow
    let mut rom = vec![0x60, 0xFF];
    for _ in 0..258 {
        rom.push(0xF0);
        rom.push(0x1E);
    }
    let mut c8 = machine_with(&rom);
    run_steps(&mut c8, 1);
    for _ in 0..257 {
        c8.step().expect("add-to-index within range failed");
    }
    assert_eq!(c8.index_reg(), 0xFFFF);
    assert_eq!(c8.step(), Err(Chip8Error::IndexOverflow));
}

#[test]
fn drawing_the_same_sprite_twice_restores_and_collides() {
    let mut c8 = machine_with(&[0xA0, 0x00, 0xD0, 0x05, 0xD0, 0x05]);
    run_steps(&mut c8, 2);
    assert_eq!(c8.reg_v(0xF), 0);
    assert_eq!(c8.pixel(0, 0), 1);
    run_steps(&mut c8, 1);
    assert_eq!(c8.reg_v(0xF), 1);
    for r in 0..c8.screen_rows() {
        for c in 0..c8.screen_cols() {
            assert_eq!(c8.pixel(r, c), 0);
        }
    }
}

#[test]
fn sprite_wraps_at_the_last_column() {
    // x = 63 (the last column of a 64-wide buffer), draw glyph 0
    let mut c8 = machine_with(&[0x60, 0x3F, 0xA0, 0x00, 0xD0, 0x15]);
    run_steps(&mut c8, 3);
    // glyph 0 begins with 0xF0: four set bits in columns 0 to 3
    assert_eq!(c8.pixel(0, 63), 1);
    assert_eq!(c8.pixel(0, 0), 1);
    assert_eq!(c8.pixel(0, 1), 1);
    assert_eq!(c8.pixel(0, 2), 1);
    assert_eq!(c8.pixel(0, 3), 0);
}

#[test]
fn masked_random_with_zero_mask_is_zero() {
    let mut c8 = machine_with(&[0xC1, 0x00]);
    run_steps(&mut c8, 1);
    assert_eq!(c8.reg_v(1), 0);
}

#[test]
fn skip_honours_the_reported_keys() {
    let gfx = ScriptedGraphics::new(0, vec![0x05], vec![]);
    let mut c8 = Chip8::with_rom(0, gfx, &[0x60, 0x05, 0xE0, 0x9E]);
    run_steps(&mut c8, 2);
    assert_eq!(c8.pc(), 0x206);

    let gfx = ScriptedGraphics::new(0, vec![0x05], vec![]);
    let mut c8 = Chip8::with_rom(0, gfx, &[0x60, 0x07, 0xE0, 0xA1]);
    run_steps(&mut c8, 2);
    assert_eq!(c8.pc(), 0x206);
}

#[test]
fn blocking_key_read_takes_the_scripted_key() {
    let gfx = ScriptedGraphics::new(0, vec![], vec![0x0A]);
    let mut c8 = Chip8::with_rom(0, gfx, &[0xF0, 0x0A]);
    run_steps(&mut c8, 1);
    assert_eq!(c8.reg_v(0), 0x0A);
}

#[test]
fn glyph_address_uses_the_low_nibble() {
    let mut c8 = machine_with(&[0x60, 0x0B, 0xF0, 0x29]);
    run_steps(&mut c8, 2);
    assert_eq!(c8.index_reg(), 55);

    let mut c8 = machine_with(&[0x60, 0x1B, 0xF0, 0x29]);
    run_steps(&mut c8, 2);
    assert_eq!(c8.index_reg(), 55);
}

#[test]
fn block_store_writes_registers_to_memory() {
    let mut c8 = machine_with(&[0x60, 0x0A, 0x61, 0x14, 0xA3, 0x00, 0xF1, 0x55]);
    run_steps(&mut c8, 4);
    assert_eq!(c8.mem_byte(0x300), 10);
    assert_eq!(c8.mem_byte(0x301), 20);
    assert_eq!(c8.mem_byte(0x302), 0);
}

#[test]
fn block_load_reads_registers_from_memory() {
    let mut c8 = machine_with(&[0xA2, 0x06, 0xF1, 0x65, 0x00, 0x00, 0x0A, 0x14]);
    run_steps(&mut c8, 2);
    assert_eq!(c8.reg_v(0), 0x0A);
    assert_eq!(c8.reg_v(1), 0x14);
}

#[test]
fn run_executes_until_the_scripted_close() {
    let gfx = ScriptedGraphics::new(3, vec![], vec![]);
    let mut c8 = Chip8::with_rom(0, gfx, &[0x61, 0x05, 0x12, 0x02]);
    assert_eq!(c8.run(), Ok(()));
    assert_eq!(c8.reg_v(1), 0x05);
}

#[test]
fn run_reports_a_fatal_decode() {
    let gfx = ScriptedGraphics::new(100, vec![], vec![]);
    let mut c8 = Chip8::with_rom(0, gfx, &[0x80, 0x09]);
    assert_eq!(c8.run(), Err(Chip8Error::InvalidOpcode(0x8009)));
}

#[test]
fn zero_row_draw_only_resets_the_flag() {
    // put 1 in the flags register, then draw a sprite of zero rows
    let mut c8 = machine_with(&[0x6F, 0x01, 0xA0, 0x00, 0xD0, 0x00]);
    run_steps(&mut c8, 3);
    assert_eq!(c8.reg_v(0xF), 0);
    for r in 0..c8.screen_rows() {
        for c in 0..c8.screen_cols() {
            assert_eq!(c8.pixel(r, c), 0);
        }
    }
}

#[test]
fn largest_program_image_fills_memory_to_the_end() {
    let rom = vec![0xABu8; 4096 - 0x200];
    let c8 = machine_with(&rom);
    assert_eq!(c8.mem_byte(0x200), 0xAB);
    assert_eq!(c8.mem_byte(0xFFF), 0xAB);
    assert_eq!(c8.mem_byte(0x1FF), 0x00);
}

#[test]
fn jump_with_offset_adds_register_zero() {
    let mut c8 = machine_with(&[0x60, 0x04, 0xB2, 0x02, 0x00, 0x00, 0x61, 0x07]);
    run_steps(&mut c8, 2);
    assert_eq!(c8.pc(), 0x206);
    run_steps(&mut c8, 1);
    assert_eq!(c8.reg_v(1), 0x07);
}

#[test]
fn bitwise_register_operations() {
    let mut c8 = machine_with(&[0x60, 0x0C, 0x61, 0x0A, 0x80, 0x11]);
    run_steps(&mut c8, 3);
    assert_eq!(c8.reg_v(0), 0x0E);

    let mut c8 = machine_with(&[0x60, 0x0C, 0x61, 0x0A, 0x80, 0x12]);
    run_steps(&mut c8, 3);
    assert_eq!(c8.reg_v(0), 0x08);

    let mut c8 = machine_with(&[0x60, 0x0C, 0x61, 0x0A, 0x80, 0x13]);
    run_steps(&mut c8, 3);
    assert_eq!(c8.reg_v(0), 0x06);

    let mut c8 = machine_with(&[0x61, 0x0A, 0x80, 0x10]);
    run_steps(&mut c8, 2);
    assert_eq!(c8.reg_v(0), 0x0A);
}

#[test]
fn unthrottled_run_leaves_wall_clock_timers_alone() {
    // at frequency 0 the instruction rate is unthrottled, while the timers
    // follow the 60 Hz wall clock: a run of a few instants must not have
    // counted the delay timer down at instruction rate
    let gfx = ScriptedGraphics::new(5, vec![], vec![]);
    let mut c8 = Chip8::with_rom(0, gfx, &[0x60, 0x3C, 0xF0, 0x15, 0x12, 0x04]);
    assert_eq!(c8.run(), Ok(()));
    assert!(c8.delay_timer() >= 55, "delay timer fell with instructions");
}
