use chip8::cpu::CPU;
use chip8::RuntimeError;

#[test]
fn new_machine_initial_state() {
    let cpu = CPU::new();
    assert_eq!(cpu.pc, 0x200);
    assert_eq!(cpu.i, 0);
    assert_eq!(cpu.sp, 0);
    assert_eq!(cpu.delay_timer, 0);
    assert_eq!(cpu.sound_timer, 0);
    for r in 0..16 {
        assert_eq!(cpu.v[r], 0);
        assert_eq!(cpu.key[r], 0);
        assert_eq!(cpu.stack[r], 0);
    }
    for x in 0..64 {
        for y in 0..32 {
            assert_eq!(cpu.pixel(x, y), 0);
        }
    }
}

#[test]
fn default_machine_matches_new() {
    let a = CPU::default();
    let b = CPU::new();
    assert_eq!(a.pc, b.pc);
    assert_eq!(a.memory, b.memory);
    assert_eq!(a.quirks, b.quirks);
    assert!(!a.quirks.shift_uses_vy);
    assert!(!a.quirks.load_store_increments_i);
}

#[test]
fn new_machine_font_in_low_memory() {
    let cpu = CPU::new();
    // Glyph 0 starts at address 0, glyph F ends at address 79.
    assert_eq!(cpu.memory[0], 0xF0);
    assert_eq!(cpu.memory[1], 0x90);
    assert_eq!(cpu.memory[4], 0xF0);
    assert_eq!(cpu.memory[75], 0xF0);
    assert_eq!(cpu.memory[79], 0x80);
    assert_eq!(cpu.memory[80], 0);
    assert_eq!(cpu.memory[0x200], 0);
}

#[test]
fn load_rom_places_bytes_at_0x200() {
    let mut cpu = CPU::new();
    let rom = vec![0x12u8, 0x34, 0x56];
    assert_eq!(cpu.load_rom(&rom), Ok(()));
    assert_eq!(cpu.memory[0x200], 0x12);
    assert_eq!(cpu.memory[0x201], 0x34);
    assert_eq!(cpu.memory[0x202], 0x56);
    assert_eq!(cpu.memory[0x203], 0);
    assert_eq!(cpu.memory[0x1FF], 0);
}

#[test]
fn load_rom_full_program_space_accepted() {
    let mut cpu = CPU::new();
    let rom = vec![0xABu8; 3584];
    assert_eq!(cpu.load_rom(&rom), Ok(()));
    assert_eq!(cpu.memory[0x200], 0xAB);
    assert_eq!(cpu.memory[4095], 0xAB);
}

#[test]
fn load_rom_too_long_rejected() {
    let mut cpu = CPU::new();
    let rom = vec![0xCDu8; 3585];
    assert_eq!(cpu.load_rom(&rom), Err(RuntimeError::AddressOutOfRange));
    assert_eq!(cpu.memory[0x200], 0);
}

#[test]
fn tick_timers_decrement_and_clamp_at_zero() {
    let mut cpu = CPU::new();
    cpu.delay_timer = 2;
    cpu.sound_timer = 1;
    cpu.tick_timers();
    assert_eq!(cpu.delay_timer, 1);
    assert_eq!(cpu.sound_timer, 0);
    cpu.tick_timers();
    assert_eq!(cpu.delay_timer, 0);
    assert_eq!(cpu.sound_timer, 0);
    cpu.tick_timers();
    assert_eq!(cpu.delay_timer, 0);
    assert_eq!(cpu.sound_timer, 0);
}

#[test]
fn press_and_release_key() {
    let mut cpu = CPU::new();
    cpu.press_key(7);
    assert_eq!(cpu.key[7], 1);
    cpu.release_key(7);
    assert_eq!(cpu.key[7], 0);
}

#[test]
fn read_mem_bounds_checked() {
    let cpu = CPU::new();
    assert_eq!(cpu.read_mem(0), Ok(0xF0));
    assert_eq!(cpu.read_mem(4095), Ok(0));
    assert_eq!(cpu.read_mem(4096), Err(RuntimeError::AddressOutOfRange));
}

#[test]
fn fetch_beyond_memory_faults() {
    let mut cpu = CPU::new();
    cpu.process_opcode(0x1FFF).unwrap(); // jump to 4095: second fetch byte is out of range
    assert_eq!(cpu.cycle(), Err(RuntimeError::AddressOutOfRange));
    assert_eq!(cpu.pc, 0xFFF);
}

#[test]
fn return_without_call_underflows() {
    let mut cpu = CPU::new();
    assert_eq!(cpu.process_opcode(0x00EE), Err(RuntimeError::StackUnderflow));
    assert_eq!(cpu.pc, 0x200);
    assert_eq!(cpu.sp, 0);
}

#[test]
fn seventeenth_nested_call_overflows() {
    let mut cpu = CPU::new();
    for depth in 0..16 {
        assert_eq!(cpu.process_opcode(0x2300), Ok(()));
        assert_eq!(cpu.sp, depth + 1);
    }
    assert_eq!(cpu.process_opcode(0x2300), Err(RuntimeError::StackOverflow));
    assert_eq!(cpu.sp, 16);
}

#[test]
fn unknown_opcodes_are_decode_errors() {
    let mut cpu = CPU::new();
    assert_eq!(cpu.process_opcode(0x0000), Err(RuntimeError::DecodeError));
    assert_eq!(cpu.process_opcode(0x0123), Err(RuntimeError::DecodeError));
    assert_eq!(cpu.process_opcode(0x5121), Err(RuntimeError::DecodeError));
    assert_eq!(cpu.process_opcode(0x8008), Err(RuntimeError::DecodeError));
    assert_eq!(cpu.process_opcode(0x9005), Err(RuntimeError::DecodeError));
    assert_eq!(cpu.process_opcode(0xE000), Err(RuntimeError::DecodeError));
    assert_eq!(cpu.process_opcode(0xF0FF), Err(RuntimeError::DecodeError));
    // A fault leaves the machine untouched.
    assert_eq!(cpu.pc, 0x200);
}

#[test]
fn bcd_near_end_of_memory_faults() {
    let mut cpu = CPU::new();
    cpu.process_opcode(0xAFFE).unwrap(); // I := 0xFFE
    assert_eq!(cpu.process_opcode(0xF033), Err(RuntimeError::AddressOutOfRange));
    assert_eq!(cpu.pc, 0x202);
}

#[test]
fn sprite_read_beyond_memory_faults() {
    let mut cpu = CPU::new();
    cpu.process_opcode(0xAFFF).unwrap(); // I := 0xFFF
    assert_eq!(cpu.process_opcode(0xD012), Err(RuntimeError::AddressOutOfRange));
}

#[test]
fn register_block_beyond_memory_faults() {
    let mut cpu = CPU::new();
    cpu.process_opcode(0xAFFE).unwrap(); // I := 0xFFE
    assert_eq!(cpu.process_opcode(0xF555), Err(RuntimeError::AddressOutOfRange));
    assert_eq!(cpu.process_opcode(0xF565), Err(RuntimeError::AddressOutOfRange));
}
