use chip8::cpu::CPU;
use chip8::quirks::Quirks;

fn machine() -> CPU {
    CPU::new()
}

#[test]
fn load_immediate_and_add_immediate() {
    let mut cpu = machine();
    cpu.process_opcode(0x60FE).unwrap(); // V0 := 0xFE
    assert_eq!(cpu.v[0], 0xFE);
    cpu.process_opcode(0x7003).unwrap(); // V0 += 3 with wraparound, no flag
    assert_eq!(cpu.v[0], 0x01);
    assert_eq!(cpu.v[15], 0);
    assert_eq!(cpu.pc, 0x204);
}

#[test]
fn add_without_carry() {
    let mut cpu = machine();
    cpu.process_opcode(0x6005).unwrap(); // V0 := 5
    cpu.process_opcode(0x6103).unwrap(); // V1 := 3
    cpu.process_opcode(0x8014).unwrap(); // V0 += V1
    assert_eq!(cpu.v[0], 8);
    assert_eq!(cpu.v[15], 0);
}

#[test]
fn add_with_carry() {
    let mut cpu = machine();
    cpu.process_opcode(0x60C8).unwrap(); // V0 := 200
    cpu.process_opcode(0x6164).unwrap(); // V1 := 100
    cpu.process_opcode(0x8014).unwrap(); // V0 += V1: 300 mod 256 = 44, carry
    assert_eq!(cpu.v[0], 44);
    assert_eq!(cpu.v[15], 1);
}

#[test]
fn sub_without_borrow() {
    let mut cpu = machine();
    cpu.process_opcode(0x6005).unwrap();
    cpu.process_opcode(0x6103).unwrap();
    cpu.process_opcode(0x8015).unwrap(); // V0 -= V1: 5 >= 3, no borrow
    assert_eq!(cpu.v[0], 2);
    assert_eq!(cpu.v[15], 1);
}

#[test]
fn sub_with_borrow() {
    let mut cpu = machine();
    cpu.process_opcode(0x6003).unwrap();
    cpu.process_opcode(0x6105).unwrap();
    cpu.process_opcode(0x8015).unwrap(); // V0 -= V1: 3 < 5, borrow
    assert_eq!(cpu.v[0], 254);
    assert_eq!(cpu.v[15], 0);
}

#[test]
fn subn_polarity() {
    let mut cpu = machine();
    cpu.process_opcode(0x6003).unwrap();
    cpu.process_opcode(0x6105).unwrap();
    cpu.process_opcode(0x8017).unwrap(); // V0 := V1 - V0: 5 >= 3, no borrow
    assert_eq!(cpu.v[0], 2);
    assert_eq!(cpu.v[15], 1);
}

#[test]
fn bitwise_family_leaves_flag_alone() {
    let mut cpu = machine();
    cpu.process_opcode(0x600C).unwrap();
    cpu.process_opcode(0x610A).unwrap();
    cpu.process_opcode(0x8011).unwrap(); // OR
    assert_eq!(cpu.v[0], 0x0E);
    cpu.process_opcode(0x8012).unwrap(); // AND
    assert_eq!(cpu.v[0], 0x0A);
    cpu.process_opcode(0x8013).unwrap(); // XOR
    assert_eq!(cpu.v[0], 0x00);
    cpu.process_opcode(0x8010).unwrap(); // V0 := V1
    assert_eq!(cpu.v[0], 0x0A);
    assert_eq!(cpu.v[15], 0);
}

#[test]
fn shifts_record_the_lost_bit() {
    let mut cpu = machine();
    cpu.process_opcode(0x6005).unwrap(); // V0 := 0b101
    cpu.process_opcode(0x8016).unwrap(); // V0 >>= 1
    assert_eq!(cpu.v[0], 2);
    assert_eq!(cpu.v[15], 1);
    cpu.process_opcode(0x60C0).unwrap(); // V0 := 0b1100_0000
    cpu.process_opcode(0x801E).unwrap(); // V0 <<= 1
    assert_eq!(cpu.v[0], 0x80);
    assert_eq!(cpu.v[15], 1);
}

#[test]
fn shift_quirk_reads_vy() {
    let mut cpu = CPU::with_quirks(Quirks { shift_uses_vy: true, load_store_increments_i: false });
    cpu.process_opcode(0x60FF).unwrap(); // V0 := 0xFF
    cpu.process_opcode(0x6103).unwrap(); // V1 := 3
    cpu.process_opcode(0x8016).unwrap(); // V0 := V1 >> 1
    assert_eq!(cpu.v[0], 1);
    assert_eq!(cpu.v[15], 1);
}

#[test]
fn skip_families() {
    let mut cpu = machine();
    cpu.process_opcode(0x6042).unwrap(); // V0 := 0x42, pc 0x202
    cpu.process_opcode(0x3042).unwrap(); // skip taken
    assert_eq!(cpu.pc, 0x206);
    cpu.process_opcode(0x3041).unwrap(); // skip not taken
    assert_eq!(cpu.pc, 0x208);
    cpu.process_opcode(0x4041).unwrap(); // skip taken
    assert_eq!(cpu.pc, 0x20C);
    cpu.process_opcode(0x6142).unwrap(); // V1 := 0x42, pc 0x20E
    cpu.process_opcode(0x5010).unwrap(); // V0 == V1: skip taken
    assert_eq!(cpu.pc, 0x212);
    cpu.process_opcode(0x9010).unwrap(); // V0 != V1 fails: not taken
    assert_eq!(cpu.pc, 0x214);
}

#[test]
fn key_skip_families() {
    let mut cpu = machine();
    cpu.process_opcode(0x6003).unwrap(); // V0 := 3
    cpu.press_key(3);
    cpu.process_opcode(0xE09E).unwrap(); // key 3 pressed: skip
    assert_eq!(cpu.pc, 0x206);
    cpu.process_opcode(0xE0A1).unwrap(); // key 3 pressed: no skip
    assert_eq!(cpu.pc, 0x208);
    cpu.release_key(3);
    cpu.process_opcode(0xE0A1).unwrap(); // key 3 released: skip
    assert_eq!(cpu.pc, 0x20C);
}

#[test]
fn jumps_overwrite_pc() {
    let mut cpu = machine();
    cpu.process_opcode(0x1234).unwrap();
    assert_eq!(cpu.pc, 0x234);
    cpu.process_opcode(0x6010).unwrap(); // V0 := 0x10
    cpu.process_opcode(0xB234).unwrap(); // pc := 0x234 + 0x10
    assert_eq!(cpu.pc, 0x244);
}

#[test]
fn call_then_return_restores_pc() {
    let mut cpu = machine();
    cpu.process_opcode(0x2ABC).unwrap();
    assert_eq!(cpu.pc, 0xABC);
    assert_eq!(cpu.sp, 1);
    assert_eq!(cpu.stack[0], 0x202);
    cpu.process_opcode(0x00EE).unwrap();
    assert_eq!(cpu.pc, 0x202);
    assert_eq!(cpu.sp, 0);
}

#[test]
fn nested_calls_and_returns_at_full_depth() {
    let mut cpu = machine();
    let mut expected_returns = Vec::new();
    for _ in 0..16 {
        expected_returns.push(cpu.pc + 2);
        cpu.process_opcode(0x2300).unwrap();
        assert_eq!(cpu.pc, 0x300);
    }
    for depth in (0..16).rev() {
        cpu.process_opcode(0x00EE).unwrap();
        assert_eq!(cpu.pc, expected_returns[depth]);
        assert_eq!(cpu.sp, depth);
    }
}

#[test]
fn set_index_and_add_to_index() {
    let mut cpu = machine();
    cpu.process_opcode(0xA123).unwrap();
    assert_eq!(cpu.i, 0x123);
    cpu.process_opcode(0x6005).unwrap(); // V0 := 5
    cpu.process_opcode(0xF01E).unwrap(); // I += V0
    assert_eq!(cpu.i, 0x128);
    assert_eq!(cpu.v[15], 0); // no overflow flag in the canonical semantics
}

#[test]
fn timer_reads_and_writes() {
    let mut cpu = machine();
    cpu.process_opcode(0x6030).unwrap(); // V0 := 0x30
    cpu.process_opcode(0xF015).unwrap(); // delay := V0
    assert_eq!(cpu.delay_timer, 0x30);
    cpu.process_opcode(0xF018).unwrap(); // sound := V0
    assert_eq!(cpu.sound_timer, 0x30);
    cpu.tick_timers();
    cpu.process_opcode(0xF107).unwrap(); // V1 := delay
    assert_eq!(cpu.v[1], 0x2F);
}

#[test]
fn font_address_uses_low_nibble() {
    let mut cpu = machine();
    cpu.process_opcode(0x60AB).unwrap(); // V0 := 0xAB: glyph B
    cpu.process_opcode(0xF029).unwrap(); // I := 5 * 0xB
    assert_eq!(cpu.i, 55);
    assert_eq!(cpu.read_mem(55), Ok(0xE0)); // first row of glyph B
}

#[test]
fn bcd_of_255_and_0() {
    let mut cpu = machine();
    cpu.process_opcode(0x63FF).unwrap(); // V3 := 255
    cpu.process_opcode(0xA500).unwrap(); // I := 0x500
    cpu.process_opcode(0xF333).unwrap(); // BCD of V3
    assert_eq!(cpu.memory[0x500], 2);
    assert_eq!(cpu.memory[0x501], 5);
    assert_eq!(cpu.memory[0x502], 5);
    assert_eq!(cpu.i, 0x500); // the digits land in memory; I is untouched

    let mut cpu = machine();
    cpu.process_opcode(0xA500).unwrap();
    cpu.process_opcode(0xF333).unwrap(); // BCD of V3 = 0
    assert_eq!(cpu.memory[0x500], 0);
    assert_eq!(cpu.memory[0x501], 0);
    assert_eq!(cpu.memory[0x502], 0);
}

#[test]
fn register_block_store_and_load_inclusive() {
    let mut cpu = machine();
    for r in 0..4 {
        cpu.process_opcode(0x6010 | ((r as u16) << 8) | r as u16).unwrap(); // Vr := 0x10 + r
    }
    cpu.process_opcode(0xA600).unwrap();
    cpu.process_opcode(0xF355).unwrap(); // store V0..=V3
    assert_eq!(cpu.memory[0x600], 0x10);
    assert_eq!(cpu.memory[0x601], 0x11);
    assert_eq!(cpu.memory[0x602], 0x12);
    assert_eq!(cpu.memory[0x603], 0x13);
    assert_eq!(cpu.memory[0x604], 0);
    assert_eq!(cpu.i, 0x600); // canonical: I unchanged

    let mut other = machine();
    other.process_opcode(0xA600).unwrap();
    for (offset, byte) in [0x20u8, 0x21, 0x22, 0x23].iter().enumerate() {
        other.memory[0x600 + offset] = *byte;
    }
    other.process_opcode(0xF365).unwrap(); // load V0..=V3
    assert_eq!(other.v[0], 0x20);
    assert_eq!(other.v[1], 0x21);
    assert_eq!(other.v[2], 0x22);
    assert_eq!(other.v[3], 0x23);
    assert_eq!(other.v[4], 0);
    assert_eq!(other.i, 0x600);
}

#[test]
fn register_block_quirk_moves_index() {
    let mut cpu = CPU::with_quirks(Quirks { shift_uses_vy: false, load_store_increments_i: true });
    cpu.process_opcode(0xA600).unwrap();
    cpu.process_opcode(0xF255).unwrap(); // store V0..=V2
    assert_eq!(cpu.i, 0x603);
    cpu.process_opcode(0xF265).unwrap(); // load V0..=V2
    assert_eq!(cpu.i, 0x606);
}

#[test]
fn random_is_masked() {
    let mut cpu = machine();
    cpu.process_opcode(0x60FF).unwrap(); // V0 := 0xFF
    cpu.process_opcode(0xC000).unwrap(); // V0 := random & 0x00
    assert_eq!(cpu.v[0], 0);
    for _ in 0..8 {
        cpu.process_opcode(0xC10F).unwrap(); // V1 := random & 0x0F
        assert!(cpu.v[1] <= 0x0F);
    }
}

#[test]
fn draw_sets_pixels_and_collision_flag() {
    let mut cpu = machine();
    cpu.memory[0x300] = 0b1000_0001; // one row: leftmost and rightmost bits
    cpu.process_opcode(0xA300).unwrap(); // I := 0x300
    cpu.process_opcode(0x600A).unwrap(); // V0 := 10
    cpu.process_opcode(0x6105).unwrap(); // V1 := 5
    cpu.process_opcode(0xD011).unwrap(); // draw 1 row at (10, 5)
    assert_eq!(cpu.pixel(10, 5), 1);
    assert_eq!(cpu.pixel(17, 5), 1);
    assert_eq!(cpu.pixel(11, 5), 0);
    assert_eq!(cpu.v[15], 0);
}

#[test]
fn draw_wraps_around_both_edges() {
    let mut cpu = machine();
    cpu.memory[0x300] = 0b1100_0000;
    cpu.memory[0x301] = 0b1100_0000;
    cpu.process_opcode(0xA300).unwrap();
    cpu.process_opcode(0x603F).unwrap(); // V0 := 63
    cpu.process_opcode(0x611F).unwrap(); // V1 := 31
    cpu.process_opcode(0xD012).unwrap(); // draw 2 rows at (63, 31)
    assert_eq!(cpu.pixel(63, 31), 1);
    assert_eq!(cpu.pixel(0, 31), 1);
    assert_eq!(cpu.pixel(63, 0), 1);
    assert_eq!(cpu.pixel(0, 0), 1);
    assert_eq!(cpu.v[15], 0);
}

#[test]
fn double_draw_restores_framebuffer() {
    let mut cpu = machine();
    cpu.memory[0x300] = 0x3C;
    cpu.memory[0x301] = 0x42;
    cpu.process_opcode(0xA300).unwrap();
    cpu.process_opcode(0x6008).unwrap(); // V0 := 8
    cpu.process_opcode(0x6104).unwrap(); // V1 := 4
    cpu.process_opcode(0xD012).unwrap(); // first draw
    assert_eq!(cpu.v[15], 0);
    let mut lit = 0;
    for x in 0..64 {
        for y in 0..32 {
            lit += cpu.pixel(x, y) as u32;
        }
    }
    assert_eq!(lit, 6); // 0x3C has four set bits, 0x42 has two
    cpu.process_opcode(0xD012).unwrap(); // same sprite, same anchor
    assert_eq!(cpu.v[15], 1); // every bit collides with the first draw
    for x in 0..64 {
        for y in 0..32 {
            assert_eq!(cpu.pixel(x, y), 0); // pre-draw framebuffer restored
        }
    }
}

#[test]
fn draw_of_zero_rows_only_resets_flag() {
    let mut cpu = machine();
    cpu.memory[0x300] = 0xFF;
    cpu.process_opcode(0xA300).unwrap();
    cpu.process_opcode(0x6F01).unwrap(); // VF := 1
    cpu.process_opcode(0xD010).unwrap(); // zero-row sprite: no cells, no collision
    assert_eq!(cpu.v[15], 0);
    for x in 0..64 {
        for y in 0..32 {
            assert_eq!(cpu.pixel(x, y), 0);
        }
    }
}

#[test]
fn clear_screen_darkens_everything() {
    let mut cpu = machine();
    cpu.memory[0x300] = 0xFF;
    cpu.process_opcode(0xA300).unwrap();
    cpu.process_opcode(0xD001).unwrap();
    assert_eq!(cpu.pixel(0, 0), 1);
    cpu.process_opcode(0x00E0).unwrap();
    for x in 0..64 {
        for y in 0..32 {
            assert_eq!(cpu.pixel(x, y), 0);
        }
    }
}

#[test]
fn end_to_end_add_program() {
    let mut cpu = machine();
    let rom = vec![0x60u8, 0x05, 0x61, 0x03, 0x80, 0x14, 0x00, 0x00];
    cpu.load_rom(&rom).unwrap();
    cpu.cycle().unwrap();
    cpu.cycle().unwrap();
    cpu.cycle().unwrap();
    assert_eq!(cpu.v[0], 8);
    assert_eq!(cpu.v[15], 0);
    assert_eq!(cpu.pc, 0x206);
}

#[test]
fn key_wait_blocks_until_key_pressed() {
    let mut cpu = machine();
    let rom = vec![0xF5u8, 0x0A]; // wait for a key into V5
    cpu.load_rom(&rom).unwrap();
    for _ in 0..5 {
        cpu.cycle().unwrap();
        assert_eq!(cpu.pc, 0x200); // no key: pc does not advance
        assert_eq!(cpu.v[5], 0);
    }
    cpu.press_key(3);
    cpu.cycle().unwrap();
    assert_eq!(cpu.v[5], 3);
    assert_eq!(cpu.pc, 0x202); // pc advances exactly once
    // The machine does not re-enter the wait: the next fetch is elsewhere.
    assert_eq!(cpu.cycle(), Err(chip8::RuntimeError::DecodeError)); // 0x0000 terminator
    assert_eq!(cpu.pc, 0x202);
}

#[test]
fn key_wait_picks_lowest_pressed_key() {
    let mut cpu = machine();
    cpu.press_key(9);
    cpu.press_key(4);
    cpu.process_opcode(0xF20A).unwrap();
    assert_eq!(cpu.v[2], 4);
}
