use crisp8_core::{Emu, EmuError, SCREEN_HEIGHT, SCREEN_WIDTH};

fn run(emu: &mut Emu, program: &[u8], steps: usize) {
    emu.load(program);
    for _ in 0..steps {
        emu.tick().expect("instruction failed");
    }
}

fn lit(emu: &Emu) -> Vec<usize> {
    emu.get_screen()
        .iter()
        .enumerate()
        .filter(|(_, on)| **on)
        .map(|(k, _)| k)
        .collect()
}

#[test]
fn new_and_reset_match() {
    let fresh = Emu::new();
    assert_eq!(fresh.pc(), 0x200);
    assert_eq!(fresh.index(), 0);
    assert_eq!(fresh.stack_depth(), 0);
    assert_eq!(fresh.memory(0x050), 0xF0);
    assert_eq!(fresh.memory(0x09F), 0x80);
    assert_eq!(fresh.memory(0x04F), 0);
    assert_eq!(fresh.memory(0x0A0), 0);
    assert_eq!(fresh.get_screen().len(), SCREEN_WIDTH * SCREEN_HEIGHT);

    let mut emu = Emu::new();
    run(&mut emu, &[0x60, 0x07, 0xA3, 0x00, 0xD0, 0x05, 0x22, 0x0A], 4);
    emu.keypress(4, true);
    emu.reset();
    assert_eq!(emu.pc(), 0x200);
    assert_eq!(emu.index(), 0);
    assert_eq!(emu.register(0), 0);
    assert_eq!(emu.stack_depth(), 0);
    assert_eq!(emu.memory(0x200), 0);
    assert_eq!(emu.memory(0x050), 0xF0);
    assert!(lit(&emu).is_empty());
}

#[test]
fn load_index_scenario() {
    let mut emu = Emu::new();
    emu.load(&[0xA2, 0x50]);
    assert_eq!(emu.tick(), Ok(()));
    assert_eq!(emu.index(), 0x250);
    assert_eq!(emu.pc(), 0x202);
}

#[test]
fn font_glyph_zero_scenario() {
    let mut emu = Emu::new();
    assert_eq!(emu.execute(0xA050), Ok(()));
    assert_eq!(emu.execute(0xD005), Ok(()));
    let rows = [0xF0u8, 0x90, 0x90, 0x90, 0xF0];
    let screen = emu.get_screen();
    for y in 0..SCREEN_HEIGHT {
        for x in 0..SCREEN_WIDTH {
            let expected = y < 5 && x < 8 && (rows[y] >> (7 - x)) & 1 == 1;
            assert_eq!(screen[x + SCREEN_WIDTH * y], expected, "cell ({}, {})", x, y);
        }
    }
    assert_eq!(emu.register(15), 0);
}

#[test]
fn plain_instructions_advance_by_two() {
    let mut emu = Emu::new();
    emu.load(&[0x60, 0x05, 0x70, 0x01, 0x81, 0x04, 0xA2, 0x00, 0x00, 0xE0, 0x00, 0x00]);
    for k in 1..=6u16 {
        emu.tick().unwrap();
        assert_eq!(emu.pc(), 0x200 + 2 * k);
    }
}

#[test]
fn jump_call_return_targets() {
    let mut emu = Emu::new();
    // 0x200: call 0x206; 0x202: jump 0x20A; 0x206: return
    emu.load(&[0x22, 0x06, 0x12, 0x0A, 0x00, 0x00, 0x00, 0xEE]);
    emu.tick().unwrap();
    assert_eq!(emu.pc(), 0x206);
    assert_eq!(emu.stack_depth(), 1);
    emu.tick().unwrap();
    assert_eq!(emu.pc(), 0x202);
    assert_eq!(emu.stack_depth(), 0);
    emu.tick().unwrap();
    assert_eq!(emu.pc(), 0x20A);
}

#[test]
fn jump_with_offset_uses_register_zero() {
    let mut emu = Emu::new();
    emu.load(&[0x60, 0x10, 0x61, 0x40, 0xB3, 0x00]);
    for _ in 0..3 {
        emu.tick().unwrap();
    }
    assert_eq!(emu.pc(), 0x310);
}

#[test]
fn skips_move_by_four_or_two() {
    let mut emu = Emu::new();
    emu.load(&[0x60, 0x07, 0x30, 0x07]);
    emu.tick().unwrap();
    emu.tick().unwrap();
    assert_eq!(emu.pc(), 0x206);

    let mut emu = Emu::new();
    emu.load(&[0x60, 0x07, 0x30, 0x08]);
    emu.tick().unwrap();
    emu.tick().unwrap();
    assert_eq!(emu.pc(), 0x204);

    let mut emu = Emu::new();
    emu.load(&[0x60, 0x07, 0x61, 0x07, 0x50, 0x10, 0x00, 0x00, 0x90, 0x10]);
    for _ in 0..3 {
        emu.tick().unwrap();
    }
    assert_eq!(emu.pc(), 0x208);
    emu.tick().unwrap();
    assert_eq!(emu.pc(), 0x20A);

    let mut emu = Emu::new();
    emu.keypress(5, true);
    emu.load(&[0x62, 0x05, 0xE2, 0x9E, 0x00, 0x00, 0xE2, 0xA1]);
    emu.tick().unwrap();
    emu.tick().unwrap();
    assert_eq!(emu.pc(), 0x206);
    emu.tick().unwrap();
    assert_eq!(emu.pc(), 0x208);
}

#[test]
fn add_immediate_wraps_and_keeps_flag() {
    let mut emu = Emu::new();
    emu.execute(0x6F09).unwrap();
    emu.execute(0x60FF).unwrap();
    emu.execute(0x7002).unwrap();
    assert_eq!(emu.register(0), 1);
    assert_eq!(emu.register(15), 9);
}

#[test]
fn add_registers_sets_carry() {
    let mut emu = Emu::new();
    emu.execute(0x60F0).unwrap();
    emu.execute(0x6120).unwrap();
    emu.execute(0x8014).unwrap();
    assert_eq!(emu.register(0), 0x10);
    assert_eq!(emu.register(15), 1);
    emu.execute(0x8014).unwrap();
    assert_eq!(emu.register(0), 0x30);
    assert_eq!(emu.register(15), 0);
}

#[test]
fn subtract_sets_no_borrow_flag() {
    let mut emu = Emu::new();
    emu.execute(0x6005).unwrap();
    emu.execute(0x6107).unwrap();
    emu.execute(0x8015).unwrap();
    assert_eq!(emu.register(0), 0xFE);
    assert_eq!(emu.register(15), 0);
    emu.execute(0x6205).unwrap();
    emu.execute(0x6307).unwrap();
    emu.execute(0x8237).unwrap();
    assert_eq!(emu.register(2), 2);
    assert_eq!(emu.register(15), 1);
    emu.execute(0x6409).unwrap();
    emu.execute(0x6509).unwrap();
    emu.execute(0x8455).unwrap();
    assert_eq!(emu.register(4), 0);
    assert_eq!(emu.register(15), 1);
}

#[test]
fn flag_register_as_operand_gets_the_flag() {
    let mut emu = Emu::new();
    emu.execute(0x6FFF).unwrap();
    emu.execute(0x6103).unwrap();
    emu.execute(0x8F14).unwrap();
    assert_eq!(emu.register(15), 1);
    emu.execute(0x6F03).unwrap();
    emu.execute(0x8F15).unwrap();
    assert_eq!(emu.register(15), 1);
    emu.execute(0x6F81).unwrap();
    emu.execute(0x8F06).unwrap();
    assert_eq!(emu.register(15), 1);
    emu.execute(0x6F40).unwrap();
    emu.execute(0x8F0E).unwrap();
    assert_eq!(emu.register(15), 0);
}

#[test]
fn logic_and_shifts() {
    let mut emu = Emu::new();
    emu.execute(0x60CA).unwrap();
    emu.execute(0x6153).unwrap();
    emu.execute(0x8200).unwrap();
    emu.execute(0x8211).unwrap();
    assert_eq!(emu.register(2), 0xDB);
    emu.execute(0x8300).unwrap();
    emu.execute(0x8312).unwrap();
    assert_eq!(emu.register(3), 0x42);
    emu.execute(0x8400).unwrap();
    emu.execute(0x8413).unwrap();
    assert_eq!(emu.register(4), 0x99);
    emu.execute(0x8016).unwrap();
    assert_eq!(emu.register(0), 0x65);
    assert_eq!(emu.register(15), 0);
    emu.execute(0x801E).unwrap();
    assert_eq!(emu.register(0), 0xCA);
    assert_eq!(emu.register(15), 0);
    emu.execute(0x801E).unwrap();
    assert_eq!(emu.register(0), 0x94);
    assert_eq!(emu.register(15), 1);
}

#[test]
fn drawing_twice_restores_screen() {
    let mut emu = Emu::new();
    emu.execute(0x600A).unwrap();
    emu.execute(0x6103).unwrap();
    emu.execute(0xA05A).unwrap();
    emu.execute(0xD015).unwrap();
    assert_eq!(emu.register(15), 0);
    assert!(!lit(&emu).is_empty());
    emu.execute(0xD015).unwrap();
    assert_eq!(emu.register(15), 1);
    assert!(lit(&emu).is_empty());
}

#[test]
fn overlapping_draw_reports_collision() {
    let mut emu = Emu::new();
    emu.execute(0xA050).unwrap();
    emu.execute(0xD001).unwrap();
    assert_eq!(emu.register(15), 0);
    emu.execute(0x6003).unwrap();
    emu.execute(0xD011).unwrap();
    assert_eq!(emu.register(15), 1);
    assert_eq!(lit(&emu), vec![0, 1, 2, 4, 5, 6]);
}

#[test]
fn draw_clips_at_right_edge() {
    let mut emu = Emu::new();
    emu.execute(0x603C).unwrap();
    emu.execute(0x6100).unwrap();
    emu.execute(0x62FF).unwrap();
    emu.execute(0xA300).unwrap();
    emu.execute(0xF255).unwrap();
    emu.execute(0xA302).unwrap();
    emu.execute(0xD011).unwrap();
    assert_eq!(lit(&emu), vec![60, 61, 62, 63]);
}

#[test]
fn draw_clips_at_bottom_and_wraps_origin() {
    let mut emu = Emu::new();
    emu.execute(0x6042).unwrap();
    emu.execute(0x613E).unwrap();
    emu.execute(0xA050).unwrap();
    emu.execute(0xD015).unwrap();
    let w = SCREEN_WIDTH;
    assert_eq!(
        lit(&emu),
        vec![2 + 30 * w, 3 + 30 * w, 4 + 30 * w, 5 + 30 * w, 2 + 31 * w, 5 + 31 * w]
    );
}

#[test]
fn key_wait_takes_lowest_key() {
    let mut emu = Emu::new();
    emu.load(&[0xF4, 0x0A]);
    emu.tick().unwrap();
    assert_eq!(emu.pc(), 0x200);
    emu.tick().unwrap();
    assert_eq!(emu.pc(), 0x200);
    emu.keypress(7, true);
    emu.keypress(3, true);
    emu.tick().unwrap();
    assert_eq!(emu.register(4), 3);
    assert_eq!(emu.pc(), 0x202);
}

#[test]
fn store_then_load_registers() {
    let mut emu = Emu::new();
    emu.execute(0x6011).unwrap();
    emu.execute(0x6122).unwrap();
    emu.execute(0x6233).unwrap();
    emu.execute(0x6344).unwrap();
    emu.execute(0x6499).unwrap();
    emu.execute(0xA400).unwrap();
    emu.execute(0xF355).unwrap();
    assert_eq!(emu.index(), 0x400);
    assert_eq!(emu.memory(0x403), 0x44);
    assert_eq!(emu.memory(0x404), 0);
    for x in 0..4u16 {
        emu.execute(0x6000 | (x << 8)).unwrap();
    }
    emu.execute(0xF365).unwrap();
    assert_eq!(emu.index(), 0x400);
    assert_eq!(
        [emu.register(0), emu.register(1), emu.register(2), emu.register(3), emu.register(4)],
        [0x11, 0x22, 0x33, 0x44, 0x99]
    );
}

#[test]
fn decimal_digits() {
    let mut emu = Emu::new();
    emu.execute(0x65FE).unwrap();
    emu.execute(0xA300).unwrap();
    emu.execute(0xF533).unwrap();
    assert_eq!([emu.memory(0x300), emu.memory(0x301), emu.memory(0x302)], [2, 5, 4]);
    emu.execute(0x6507).unwrap();
    emu.execute(0xF533).unwrap();
    assert_eq!([emu.memory(0x300), emu.memory(0x301), emu.memory(0x302)], [0, 0, 7]);
}

#[test]
fn font_address_and_index_add() {
    let mut emu = Emu::new();
    emu.execute(0x6A1B).unwrap();
    emu.execute(0xFA29).unwrap();
    assert_eq!(emu.index(), 0x050 + 0xB * 5);
    emu.execute(0xAFFE).unwrap();
    emu.execute(0x6001).unwrap();
    emu.execute(0xF01E).unwrap();
    assert_eq!(emu.index(), 0xFFF);
    assert_eq!(emu.register(15), 0);
    emu.execute(0xF01E).unwrap();
    assert_eq!(emu.index(), 0x1000);
    assert_eq!(emu.register(15), 1);
}

#[test]
fn timers_count_down_and_signal_once() {
    let mut emu = Emu::new();
    emu.execute(0x6002).unwrap();
    emu.execute(0xF015).unwrap();
    emu.execute(0xF018).unwrap();
    assert!(!emu.tick_timers());
    assert_eq!(emu.delay_timer(), 1);
    assert_eq!(emu.sound_timer(), 1);
    emu.execute(0xF107).unwrap();
    assert_eq!(emu.register(1), 1);
    assert!(emu.tick_timers());
    assert!(!emu.tick_timers());
    assert_eq!(emu.delay_timer(), 0);
    assert_eq!(emu.sound_timer(), 0);
    emu.execute(0xF107).unwrap();
    assert_eq!(emu.register(1), 0);
}

#[test]
fn random_byte_is_masked() {
    let mut emu = Emu::new();
    emu.execute(0xC300).unwrap();
    assert_eq!(emu.register(3), 0);
    for _ in 0..32 {
        emu.execute(0xC30F).unwrap();
        assert!(emu.register(3) <= 0x0F);
    }
    assert_eq!(emu.execute_with(0xC3F0, 0xAB), Ok(()));
    assert_eq!(emu.register(3), 0xA0);
}

#[test]
fn unknown_opcodes_fail_without_change() {
    let mut emu = Emu::new();
    for op in [0x0123u16, 0x5121, 0x8008, 0x912F, 0xE0FF, 0xF0FF] {
        assert_eq!(emu.execute(op), Err(EmuError::UnknownOpcode(op)));
    }
    emu.load(&[0xFF, 0xFF]);
    assert_eq!(emu.tick(), Err(EmuError::UnknownOpcode(0xFFFF)));
    assert_eq!(emu.pc(), 0x200);
}

#[test]
fn out_of_bounds_conditions() {
    let mut emu = Emu::new();
    assert_eq!(emu.execute(0x00EE), Err(EmuError::OutOfBounds));
    for _ in 0..16 {
        emu.execute(0x2300).unwrap();
    }
    assert_eq!(emu.stack_depth(), 16);
    assert_eq!(emu.execute(0x2300), Err(EmuError::OutOfBounds));
    assert_eq!(emu.stack_depth(), 16);

    let mut emu = Emu::new();
    emu.execute(0xAFFE).unwrap();
    assert_eq!(emu.execute(0xF033), Err(EmuError::OutOfBounds));
    assert_eq!(emu.execute(0xF255), Err(EmuError::OutOfBounds));
    assert_eq!(emu.execute(0xF155), Ok(()));
    assert_eq!(emu.execute(0xD003), Err(EmuError::OutOfBounds));
    assert_eq!(emu.execute(0xD002), Ok(()));
    emu.execute(0x6020).unwrap();
    assert_eq!(emu.execute(0xE09E), Err(EmuError::OutOfBounds));

    let mut emu = Emu::new();
    emu.execute(0x1FFF).unwrap();
    assert_eq!(emu.tick(), Err(EmuError::OutOfBounds));
    assert_eq!(emu.pc(), 0xFFF);
}

#[test]
fn load_places_program_at_start() {
    let mut emu = Emu::new();
    let program: Vec<u8> = (0..=255u8).collect();
    emu.load(&program);
    assert_eq!(emu.memory(0x1FF), 0);
    assert_eq!(emu.memory(0x200), 0);
    assert_eq!(emu.memory(0x2FF), 255);
    assert_eq!(emu.memory(0x300), 0);
}

#[test]
fn draw_ignores_memory_of_rows_below_screen() {
    let mut emu = Emu::new();
    for r in 0..12u16 {
        emu.execute(0x60FF | (r << 8)).unwrap();
    }
    emu.execute(0x6C08).unwrap();
    emu.execute(0x6D14).unwrap();
    emu.execute(0xAFF4).unwrap();
    emu.execute(0xFB55).unwrap();
    assert_eq!(emu.draw(0xC, 0xD, 14), Ok(()));
    let lit_cells = lit(&emu);
    assert_eq!(lit_cells.len(), 12 * 8);
    assert_eq!(lit_cells[0], 8 + SCREEN_WIDTH * 20);
    assert_eq!(*lit_cells.last().unwrap(), 15 + SCREEN_WIDTH * 31);
    emu.execute(0xAFF5).unwrap();
    assert_eq!(emu.execute(0xDCDE), Err(EmuError::OutOfBounds));
}

#[test]
fn index_add_wraps_at_sixteen_bits() {
    let mut emu = Emu::new();
    emu.execute(0xAFFF).unwrap();
    emu.execute(0x60FF).unwrap();
    for _ in 0..240 {
        emu.execute(0xF01E).unwrap();
    }
    assert_eq!(emu.index(), 0xFF0F);
    assert_eq!(emu.register(15), 1);
    assert_eq!(emu.execute(0xF01E), Ok(()));
    assert_eq!(emu.index(), 0x000E);
    assert_eq!(emu.register(15), 0);
}
