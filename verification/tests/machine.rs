use interpreter::machine::BLACK;
use interpreter::machine::GREEN;
use interpreter::C8;
use interpreter::C8Error;

fn loaded(bytes: &[u8]) -> C8 {
    let mut c8 = C8::new();
    c8.load_program(&bytes.to_vec()).unwrap();
    c8
}

#[test]
fn new_machine_layout() {
    let c8 = C8::new();
    assert_eq!(c8.program_counter(), 0x200);
    assert_eq!(c8.index_register(), 0);
    assert_eq!(c8.stack_depth(), 0);
    assert_eq!(c8.mem_byte(0x50), 0xF0);
    assert_eq!(c8.mem_byte(0x9F), 0x80);
    assert_eq!(c8.mem_byte(0x4F), 0);
    assert_eq!(c8.mem_byte(0xA0), 0);
    for x in 0..16 {
        assert_eq!(c8.register(x), 0);
    }
    for col in 0..64 {
        for row in 0..32 {
            assert!(!c8.pixel(col, row));
        }
    }
}

#[test]
fn add_sets_carry_iff_sum_exceeds_255() {
    let mut c8 = C8::new();
    c8.set_reg(0, 200);
    c8.set_reg(1, 100);
    c8.plus(0, 1);
    assert_eq!(c8.register(0), 44);
    assert_eq!(c8.register(15), 1);

    c8.set_reg(0, 20);
    c8.set_reg(1, 30);
    c8.plus(0, 1);
    assert_eq!(c8.register(0), 50);
    assert_eq!(c8.register(15), 0);

    c8.set_reg(0, 255);
    c8.set_reg(1, 1);
    c8.plus(0, 1);
    assert_eq!(c8.register(0), 0);
    assert_eq!(c8.register(15), 1);
}

#[test]
fn subtract_flag_is_not_borrow() {
    let mut c8 = C8::new();
    c8.set_reg(0, 10);
    c8.set_reg(1, 20);
    c8.minus(0, 1);
    assert_eq!(c8.register(0), 246);
    assert_eq!(c8.register(15), 0);

    c8.set_reg(0, 20);
    c8.set_reg(1, 10);
    c8.minus(0, 1);
    assert_eq!(c8.register(0), 10);
    assert_eq!(c8.register(15), 1);

    c8.set_reg(0, 7);
    c8.set_reg(1, 7);
    c8.minus(0, 1);
    assert_eq!(c8.register(0), 0);
    assert_eq!(c8.register(15), 1);
}

#[test]
fn reverse_subtract_flag_is_not_borrow() {
    let mut c8 = C8::new();
    c8.set_reg(0, 20);
    c8.set_reg(1, 10);
    c8.diff(0, 1);
    assert_eq!(c8.register(0), 246);
    assert_eq!(c8.register(15), 0);

    c8.set_reg(0, 10);
    c8.set_reg(1, 20);
    c8.diff(0, 1);
    assert_eq!(c8.register(0), 10);
    assert_eq!(c8.register(15), 1);
}

#[test]
fn shift_right_flag_is_bit_zero() {
    let mut c8 = C8::new();
    c8.set_reg(3, 5);
    c8.shr(3);
    assert_eq!(c8.register(3), 2);
    assert_eq!(c8.register(15), 1);

    c8.set_reg(3, 8);
    c8.shr(3);
    assert_eq!(c8.register(3), 4);
    assert_eq!(c8.register(15), 0);
}

#[test]
fn shift_left_flag_is_bit_seven() {
    let mut c8 = C8::new();
    c8.set_reg(3, 0x81);
    c8.shl(3);
    assert_eq!(c8.register(3), 0x02);
    assert_eq!(c8.register(15), 1);

    c8.set_reg(3, 0x40);
    c8.shl(3);
    assert_eq!(c8.register(3), 0x80);
    assert_eq!(c8.register(15), 0);
}

#[test]
fn bitwise_ops() {
    let mut c8 = C8::new();
    c8.set_reg(0, 0b1100);
    c8.set_reg(1, 0b1010);
    c8.or(0, 1);
    assert_eq!(c8.register(0), 0b1110);

    c8.set_reg(0, 0b1100);
    c8.and(0, 1);
    assert_eq!(c8.register(0), 0b1000);

    c8.set_reg(0, 0b1100);
    c8.xor(0, 1);
    assert_eq!(c8.register(0), 0b0110);

    c8.assign(2, 1);
    assert_eq!(c8.register(2), 0b1010);
}

#[test]
fn add_literal_wraps_without_flag() {
    let mut c8 = C8::new();
    c8.set_reg(0, 250);
    c8.add_to_reg(0, 10);
    assert_eq!(c8.register(0), 4);
    assert_eq!(c8.register(15), 0);
}

#[test]
fn bcd_digits_weigh_back_to_value() {
    let mut c8 = C8::new();
    c8.set_index(0x300);
    c8.set_reg(2, 215);
    c8.bcd(2).unwrap();
    assert_eq!(c8.mem_byte(0x300), 2);
    assert_eq!(c8.mem_byte(0x301), 1);
    assert_eq!(c8.mem_byte(0x302), 5);

    c8.set_reg(2, 0);
    c8.bcd(2).unwrap();
    assert_eq!(c8.mem_byte(0x300), 0);
    assert_eq!(c8.mem_byte(0x301), 0);
    assert_eq!(c8.mem_byte(0x302), 0);

    c8.set_reg(2, 255);
    c8.bcd(2).unwrap();
    assert_eq!(c8.mem_byte(0x300), 2);
    assert_eq!(c8.mem_byte(0x301), 5);
    assert_eq!(c8.mem_byte(0x302), 5);
}

#[test]
fn bcd_out_of_bounds_is_reported() {
    let mut c8 = C8::new();
    c8.set_index(4095);
    c8.set_reg(0, 7);
    assert_eq!(c8.bcd(0), Err(C8Error::MemoryOutOfBounds));
}

#[test]
fn draw_glyph_and_collision() {
    let mut c8 = C8::new();
    c8.set_index(0x50);
    c8.set_reg(0, 0);
    c8.set_reg(1, 0);
    c8.draw(0, 1, 5).unwrap();
    assert_eq!(c8.register(15), 0);
    // glyph "0" top row is 0xF0: columns 0..4 lit, 4..8 dark
    assert!(c8.pixel(0, 0));
    assert!(c8.pixel(3, 0));
    assert!(!c8.pixel(4, 0));
    // second row 0x90: only columns 0 and 3
    assert!(c8.pixel(0, 1));
    assert!(!c8.pixel(1, 1));
    assert!(c8.pixel(3, 1));
}

#[test]
fn draw_twice_restores_display_and_reports_collision() {
    let mut c8 = C8::new();
    c8.set_index(0x50);
    c8.set_reg(0, 10);
    c8.set_reg(1, 10);
    c8.draw(0, 1, 5).unwrap();
    assert_eq!(c8.register(15), 0);
    c8.draw(0, 1, 5).unwrap();
    assert_eq!(c8.register(15), 1);
    for col in 0..64 {
        for row in 0..32 {
            assert!(!c8.pixel(col, row));
        }
    }
}

#[test]
fn draw_clips_at_the_edges() {
    let mut c8 = C8::new();
    c8.set_index(0x50);
    c8.set_reg(0, 62);
    c8.set_reg(1, 30);
    c8.draw(0, 1, 5).unwrap();
    // only the 2x2 corner of the glyph lands on screen
    assert!(c8.pixel(62, 30));
    assert!(c8.pixel(63, 30));
    assert!(c8.pixel(62, 31));
    // nothing wrapped around to the opposite edges
    for row in 0..32 {
        assert!(!c8.pixel(0, row));
        assert!(!c8.pixel(1, row));
    }
    for col in 0..64 {
        if col != 62 && col != 63 {
            assert!(!c8.pixel(col, 0) || col < 62);
        }
    }
}

#[test]
fn draw_anchor_wraps_once_at_origin() {
    let mut c8 = C8::new();
    c8.set_index(0x50);
    c8.set_reg(0, 64);
    c8.set_reg(1, 32);
    c8.draw(0, 1, 5).unwrap();
    // 64 mod 64 == 0, 32 mod 32 == 0: drawn at the origin
    assert!(c8.pixel(0, 0));
    assert!(c8.pixel(3, 0));
}

#[test]
fn draw_out_of_bounds_memory_is_reported() {
    let mut c8 = C8::new();
    c8.set_index(4090);
    c8.set_reg(0, 0);
    c8.set_reg(1, 0);
    assert_eq!(c8.draw(0, 1, 15), Err(C8Error::MemoryOutOfBounds));
}

#[test]
fn clear_screen_then_empty_draw_leaves_display_clear() {
    let mut c8 = C8::new();
    c8.set_index(0x50);
    c8.set_reg(0, 0);
    c8.set_reg(1, 0);
    c8.draw(0, 1, 5).unwrap();
    c8.clear_screen();
    c8.draw(0, 1, 0).unwrap();
    assert_eq!(c8.register(15), 0);
    for col in 0..64 {
        for row in 0..32 {
            assert!(!c8.pixel(col, row));
        }
    }
}

#[test]
fn call_and_return_roundtrip() {
    let mut c8 = C8::new();
    c8.sub(0x300);
    assert_eq!(c8.program_counter(), 0x300);
    assert_eq!(c8.stack_depth(), 1);
    c8.ret().unwrap();
    assert_eq!(c8.program_counter(), 0x200);
    assert_eq!(c8.stack_depth(), 0);
}

#[test]
fn return_on_empty_stack_is_reported() {
    let mut c8 = C8::new();
    assert_eq!(c8.ret(), Err(C8Error::StackUnderflow));
    assert_eq!(c8.program_counter(), 0x200);
}

#[test]
fn font_character_lookup() {
    let mut c8 = C8::new();
    c8.set_reg(0, 0xA);
    c8.char(0);
    assert_eq!(c8.index_register(), 0x50 + 10 * 5);
}

#[test]
fn dump_and_load_roundtrip() {
    let mut c8 = C8::new();
    c8.set_index(0x400);
    for x in 0..4 {
        c8.set_reg(x, (x as u16) * 3 + 1);
    }
    c8.dump(3).unwrap();
    assert_eq!(c8.mem_byte(0x400), 1);
    assert_eq!(c8.mem_byte(0x401), 4);
    assert_eq!(c8.mem_byte(0x402), 7);
    assert_eq!(c8.mem_byte(0x403), 10);
    for x in 0..4 {
        c8.set_reg(x, 0);
    }
    c8.load(3).unwrap();
    assert_eq!(c8.register(0), 1);
    assert_eq!(c8.register(1), 4);
    assert_eq!(c8.register(2), 7);
    assert_eq!(c8.register(3), 10);
}

#[test]
fn dump_out_of_bounds_is_reported() {
    let mut c8 = C8::new();
    c8.set_index(4090);
    assert_eq!(c8.dump(15), Err(C8Error::MemoryOutOfBounds));
    assert_eq!(c8.load(15), Err(C8Error::MemoryOutOfBounds));
}

#[test]
fn timers_set_and_read_back() {
    let mut c8 = C8::new();
    c8.set_reg(0, 42);
    c8.delay(0);
    assert_eq!(c8.delay_value(), 42);
    c8.get_delay(1);
    assert_eq!(c8.register(1), 42);
    c8.sound(0);
    assert_eq!(c8.sound_value(), 42);
}

#[test]
fn add_to_index_accumulates() {
    let mut c8 = C8::new();
    c8.set_index(0x100);
    c8.set_reg(0, 200);
    c8.add_to_index(0);
    assert_eq!(c8.index_register(), 0x100 + 200);
}

#[test]
fn random_and_with_zero_mask_is_zero() {
    let mut c8 = C8::new();
    c8.set_reg(0, 0xAB);
    c8.and_rand(0, 0);
    assert_eq!(c8.register(0), 0);
    // any mask bounds the result
    c8.and_rand(0, 0x0F);
    assert!(c8.register(0) <= 0x0F);
}

#[test]
fn key_wait_reexecutes_until_a_key_is_down() {
    let mut c8 = loaded(&[0xF5, 0x0A]);
    for _ in 0..3 {
        c8.tick().unwrap();
        assert_eq!(c8.program_counter(), 0x200);
    }
    c8.key_pressed(7, true);
    c8.key_pressed(3, true);
    c8.tick().unwrap();
    assert_eq!(c8.program_counter(), 0x202);
    assert_eq!(c8.register(5), 3);
}

#[test]
fn key_released_is_forgotten() {
    let mut c8 = loaded(&[0xF5, 0x0A]);
    c8.key_pressed(7, true);
    c8.key_pressed(7, false);
    c8.tick().unwrap();
    assert_eq!(c8.program_counter(), 0x200);
}

#[test]
fn clear_screen_program_advances_counter() {
    let mut c8 = C8::new();
    c8.set_index(0x50);
    c8.set_reg(0, 0);
    c8.set_reg(1, 0);
    c8.draw(0, 1, 5).unwrap();
    c8.load_program(&vec![0x00, 0xE0]).unwrap();
    c8.tick().unwrap();
    assert_eq!(c8.program_counter(), 0x202);
    for col in 0..64 {
        for row in 0..32 {
            assert!(!c8.pixel(col, row));
        }
    }
}

#[test]
fn jump_to_self_loops_forever() {
    let mut c8 = loaded(&[0x12, 0x00]);
    for _ in 0..10 {
        c8.tick().unwrap();
        assert_eq!(c8.program_counter(), 0x200);
    }
}

#[test]
fn skip_if_equal_literal() {
    // 3005: skip when reg0 == 5
    let mut c8 = loaded(&[0x30, 0x05]);
    c8.set_reg(0, 5);
    c8.tick().unwrap();
    assert_eq!(c8.program_counter(), 0x204);

    let mut c8 = loaded(&[0x30, 0x05]);
    c8.set_reg(0, 4);
    c8.tick().unwrap();
    assert_eq!(c8.program_counter(), 0x202);
}

#[test]
fn skip_if_equal_registers() {
    // 5010: skip when reg0 == reg1 (both start at 0)
    let mut c8 = loaded(&[0x50, 0x10]);
    c8.tick().unwrap();
    assert_eq!(c8.program_counter(), 0x204);

    // 9010: skip when reg0 != reg1
    let mut c8 = loaded(&[0x90, 0x10]);
    c8.tick().unwrap();
    assert_eq!(c8.program_counter(), 0x202);
}

#[test]
fn register_skip_requires_exact_pattern() {
    // 5xyk and 9xyk with k != 0 match no instruction
    let mut c8 = loaded(&[0x50, 0x11]);
    assert_eq!(
        c8.tick(),
        Err(C8Error::UnknownInstruction(0x5, 0x0, 0x1, 0x1))
    );
    let mut c8 = loaded(&[0x90, 0x11]);
    assert_eq!(
        c8.tick(),
        Err(C8Error::UnknownInstruction(0x9, 0x0, 0x1, 0x1))
    );
}

#[test]
fn skip_if_key_down() {
    // E09E: skip when the key named by reg0 is down
    let mut c8 = loaded(&[0xE0, 0x9E]);
    c8.set_reg(0, 4);
    c8.key_pressed(4, true);
    c8.tick().unwrap();
    assert_eq!(c8.program_counter(), 0x204);

    let mut c8 = loaded(&[0xE0, 0xA1]);
    c8.set_reg(0, 4);
    c8.tick().unwrap();
    assert_eq!(c8.program_counter(), 0x204);
}

#[test]
fn key_test_with_bad_register_is_reported() {
    let mut c8 = C8::new();
    c8.set_reg(0, 200);
    assert_eq!(
        c8.execute((0xE, 0x0, 0x9, 0xE)),
        Err(C8Error::KeyOutOfRange)
    );
}

#[test]
fn unknown_instruction_is_reported() {
    let mut c8 = loaded(&[0x0F, 0x00]);
    assert_eq!(
        c8.tick(),
        Err(C8Error::UnknownInstruction(0x0, 0xF, 0x0, 0x0))
    );
}

#[test]
fn program_too_large_is_rejected() {
    let mut c8 = C8::new();
    let image = vec![0u8; 3585];
    assert_eq!(c8.load_program(&image), Err(C8Error::ProgramTooLarge));
    let image = vec![0xABu8; 3584];
    c8.load_program(&image).unwrap();
    assert_eq!(c8.mem_byte(0x200), 0xAB);
    assert_eq!(c8.mem_byte(4095), 0xAB);
}

#[test]
fn render_paints_lit_cells_green() {
    let mut c8 = C8::new();
    c8.set_index(0x50);
    c8.set_reg(0, 0);
    c8.set_reg(1, 0);
    c8.draw(0, 1, 5).unwrap();
    let mut frame = vec![0u32; 64 * 32];
    c8.render(&mut frame);
    // row-major: index row * 64 + col
    assert_eq!(frame[0], GREEN);
    assert_eq!(frame[3], GREEN);
    assert_eq!(frame[4], BLACK);
    assert_eq!(frame[64], GREEN);
    assert_eq!(frame[64 + 1], BLACK);
}

#[test]
fn set_index_program() {
    let mut c8 = loaded(&[0xA1, 0x23]);
    c8.tick().unwrap();
    assert_eq!(c8.index_register(), 0x123);
    assert_eq!(c8.program_counter(), 0x202);
}

#[test]
fn call_program_pushes_and_jumps() {
    let mut c8 = loaded(&[0x23, 0x00]);
    c8.tick().unwrap();
    assert_eq!(c8.program_counter(), 0x300);
    assert_eq!(c8.stack_depth(), 1);
}
