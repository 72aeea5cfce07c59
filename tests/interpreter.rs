use chip8::{Cpu, CpuError};

fn cpu_with(program: &[u8]) -> Cpu {
    let mut cpu = Cpu::default();
    cpu.read_rom(program.to_vec()).unwrap();
    cpu
}

#[test]
fn fresh_interpreter_holds_font_and_starts_at_load_address() {
    let cpu = Cpu::default();
    assert_eq!(cpu.pc(), 0x200);
    assert_eq!(cpu.memory_at(0), 0xF0);
    assert_eq!(cpu.memory_at(5), 0x20);
    assert_eq!(cpu.memory_at(79), 0x80);
    assert_eq!(cpu.memory_at(80), 0);
    assert_eq!(cpu.memory_at(0x200), 0);
    assert_eq!(cpu.index(), 0);
    assert!(!cpu.is_paused());
}

#[test]
fn load_then_skip_moves_four_past_the_test() {
    let mut cpu = Cpu::default();
    cpu.execute(0x6A42, 0).unwrap();
    assert_eq!(cpu.pc(), 0x202);
    assert_eq!(cpu.register(0xA), 0x42);
    cpu.execute(0x3A42, 0).unwrap();
    assert_eq!(cpu.pc(), 0x206);
}

#[test]
fn skip_not_taken_on_mismatch() {
    let mut cpu = Cpu::default();
    cpu.execute(0x6A42, 0).unwrap();
    cpu.execute(0x3A41, 0).unwrap();
    assert_eq!(cpu.pc(), 0x204);
    cpu.execute(0x4A41, 0).unwrap();
    assert_eq!(cpu.pc(), 0x208);
}

#[test]
fn add_sets_carry_only_on_overflow() {
    let mut cpu = Cpu::default();
    cpu.set_register(2, 200);
    cpu.set_register(3, 100);
    cpu.execute(0x8234, 0).unwrap();
    assert_eq!(cpu.register(2), 44);
    assert_eq!(cpu.register(0xF), 1);
    cpu.set_register(2, 1);
    cpu.set_register(3, 2);
    cpu.execute(0x8234, 0).unwrap();
    assert_eq!(cpu.register(2), 3);
    assert_eq!(cpu.register(0xF), 0);
}

#[test]
fn sub_sets_flag_when_larger() {
    let mut cpu = Cpu::default();
    cpu.set_register(2, 5);
    cpu.set_register(3, 10);
    cpu.execute(0x8235, 0).unwrap();
    assert_eq!(cpu.register(2), 251);
    assert_eq!(cpu.register(0xF), 0);
    cpu.set_register(2, 7);
    cpu.set_register(3, 7);
    cpu.execute(0x8235, 0).unwrap();
    assert_eq!(cpu.register(2), 0);
    assert_eq!(cpu.register(0xF), 0);
}

#[test]
fn add_immediate_wraps_without_flag() {
    let mut cpu = Cpu::default();
    cpu.set_register(4, 250);
    cpu.set_register(0xF, 7);
    cpu.execute(0x740A, 0).unwrap();
    assert_eq!(cpu.register(4), 4);
    assert_eq!(cpu.register(0xF), 7);
}

#[test]
fn clear_screen_twice_is_blank() {
    let mut cpu = Cpu::default();
    cpu.execute(0xD015, 0).unwrap();
    cpu.execute(0x00E0, 0).unwrap();
    cpu.execute(0x00E0, 0).unwrap();
    assert!(cpu.display().snapshot().iter().all(|row| row.iter().all(|&p| p == 0)));
}

#[test]
fn store_then_load_restores_registers() {
    let mut cpu = Cpu::default();
    for i in 0..4 {
        cpu.set_register(i, (i as u8 + 1) * 11);
    }
    cpu.set_index(0x300);
    cpu.execute(0xF355, 0).unwrap();
    assert_eq!(cpu.memory_at(0x300), 11);
    assert_eq!(cpu.memory_at(0x303), 44);
    assert_eq!(cpu.memory_at(0x304), 0);
    for i in 0..4 {
        cpu.set_register(i, 0);
    }
    cpu.set_register(4, 99);
    cpu.execute(0xF365, 0).unwrap();
    for i in 0..4 {
        assert_eq!(cpu.register(i), (i as u8 + 1) * 11);
    }
    assert_eq!(cpu.register(4), 99);
    assert_eq!(cpu.index(), 0x300);
}

#[test]
fn drawing_twice_erases_and_reports_collision() {
    let mut cpu = Cpu::default();
    // glyph "0" of the font at address 0, drawn at (0, 0)
    cpu.execute(0xD015, 0).unwrap();
    assert_eq!(cpu.register(0xF), 0);
    let first = cpu.display().snapshot();
    assert_eq!(&first[0][0..4], &[1, 1, 1, 1]);
    assert_eq!(&first[1][0..4], &[1, 0, 0, 1]);
    assert_eq!(first[0][4], 0);
    cpu.execute(0xD015, 0).unwrap();
    assert_eq!(cpu.register(0xF), 1);
    assert!(cpu.display().snapshot().iter().all(|row| row.iter().all(|&p| p == 0)));
}

#[test]
fn sprite_wraps_per_pixel() {
    let mut cpu = Cpu::default();
    cpu.set_register(0, 62);
    cpu.set_register(1, 30);
    cpu.execute(0xD013, 0).unwrap();
    let grid = cpu.display().snapshot();
    // top row 0xF0 at x = 62, 63, 0, 1 on row 30
    assert_eq!(grid[30][62], 1);
    assert_eq!(grid[30][63], 1);
    assert_eq!(grid[30][0], 1);
    assert_eq!(grid[30][1], 1);
    assert_eq!(grid[30][2], 0);
    // third row 0x90 lands on row 0
    assert_eq!(grid[0][62], 1);
    assert_eq!(grid[0][1], 1);
    assert_eq!(grid[0][63], 0);
}

#[test]
fn bcd_of_205() {
    let mut cpu = Cpu::default();
    cpu.set_register(7, 205);
    cpu.set_index(0x400);
    cpu.execute(0xF733, 0).unwrap();
    assert_eq!(cpu.memory_at(0x400), 2);
    assert_eq!(cpu.memory_at(0x401), 0);
    assert_eq!(cpu.memory_at(0x402), 5);
}

#[test]
fn delay_timer_counts_down_once_per_tick() {
    // 0x200: V3 = 3; delay = V3; then jump to itself at 0x204
    let mut cpu = cpu_with(&[0x63, 0x03, 0xF3, 0x15, 0x12, 0x04]);
    cpu.execute(0x6303, 0).unwrap();
    cpu.execute(0xF315, 0).unwrap();
    assert_eq!(cpu.delay_timer(), 3);
    assert_eq!(cpu.pc(), 0x204);
    let randoms = vec![0u8; 10];
    cpu.run_tick(&randoms).unwrap();
    assert_eq!(cpu.delay_timer(), 2);
    cpu.run_tick(&randoms).unwrap();
    assert_eq!(cpu.delay_timer(), 1);
    cpu.run_tick(&randoms).unwrap();
    assert_eq!(cpu.delay_timer(), 0);
    cpu.run_tick(&randoms).unwrap();
    assert_eq!(cpu.delay_timer(), 0);
    assert_eq!(cpu.pc(), 0x204);
}

#[test]
fn sound_timer_counts_down_too() {
    let mut cpu = cpu_with(&[0x12, 0x00]);
    cpu.set_register(1, 2);
    cpu.execute(0xF118, 0).unwrap();
    cpu.execute(0x1200, 0).unwrap();
    cpu.run_tick(&vec![0u8; 3]).unwrap();
    assert_eq!(cpu.sound_timer(), 1);
    cpu.run_tick(&vec![0u8; 3]).unwrap();
    cpu.run_tick(&vec![0u8; 3]).unwrap();
    assert_eq!(cpu.sound_timer(), 0);
}

#[test]
fn wait_for_key_blocks_until_a_key_is_down() {
    // 0x200: wait for a key into V5; 0x202: V1 = 1; 0x204: jump to itself
    let mut cpu = cpu_with(&[0xF5, 0x0A, 0x61, 0x01, 0x12, 0x04]);
    cpu.set_register(0, 9);
    cpu.execute(0xF015, 0).unwrap();
    cpu.execute(0x1200, 0).unwrap();
    let randoms = vec![0u8; 10];
    cpu.run_tick(&randoms).unwrap();
    assert!(cpu.is_paused());
    assert_eq!(cpu.pc(), 0x202);
    assert_eq!(cpu.delay_timer(), 9);
    cpu.run_tick(&randoms).unwrap();
    assert!(cpu.is_paused());
    assert_eq!(cpu.pc(), 0x202);
    assert_eq!(cpu.register(1), 0);
    cpu.keyboard.press_key(vec![7, 3]);
    cpu.run_tick(&vec![0u8]).unwrap();
    assert!(!cpu.is_paused());
    assert_eq!(cpu.register(5), 3);
    assert_eq!(cpu.register(1), 1);
    assert_eq!(cpu.pc(), 0x204);
    assert_eq!(cpu.delay_timer(), 8);
}

#[test]
fn return_from_empty_stack_is_fatal() {
    let mut cpu = Cpu::default();
    assert_eq!(
        cpu.execute(0x00EE, 0),
        Err(CpuError::EmptyStack { pc: 0x200, opcode: 0x00EE })
    );
    assert_eq!(cpu.pc(), 0x200);
}

#[test]
fn call_then_return() {
    let mut cpu = Cpu::default();
    cpu.execute(0x2400, 0).unwrap();
    assert_eq!(cpu.pc(), 0x400);
    cpu.execute(0x00EE, 0).unwrap();
    assert_eq!(cpu.pc(), 0x202);
}

#[test]
fn memory_past_the_end_is_fatal() {
    let mut cpu = Cpu::default();
    cpu.set_index(4094);
    assert_eq!(
        cpu.execute(0xF033, 0),
        Err(CpuError::MemoryOutOfRange { pc: 0x200, opcode: 0xF033 })
    );
    assert_eq!(cpu.memory_at(4094), 0);
    assert_eq!(
        cpu.execute(0xD013, 0),
        Err(CpuError::MemoryOutOfRange { pc: 0x200, opcode: 0xD013 })
    );
    assert!(cpu.execute(0xD012, 0).is_ok());
    cpu.set_index(4090);
    assert_eq!(
        cpu.execute(0xF655, 0),
        Err(CpuError::MemoryOutOfRange { pc: 0x202, opcode: 0xF655 })
    );
    assert!(cpu.execute(0xF565, 0).is_ok());
}

#[test]
fn fetch_past_the_end_is_fatal() {
    let mut cpu = Cpu::default();
    cpu.execute(0x1FFF, 0).unwrap();
    assert_eq!(cpu.step(0), Err(CpuError::FetchOutOfRange { pc: 0xFFF }));
}

#[test]
fn oversize_program_is_refused() {
    let mut cpu = Cpu::default();
    assert_eq!(
        cpu.read_rom(vec![1; 3585]),
        Err(CpuError::RomTooLarge { len: 3585 })
    );
    assert_eq!(cpu.memory_at(0x200), 0);
    assert!(cpu.read_rom(vec![1; 3584]).is_ok());
    assert_eq!(cpu.memory_at(0x200), 1);
    assert_eq!(cpu.memory_at(4095), 1);
}

#[test]
fn registers_equal_compares_two_registers() {
    let mut cpu = Cpu::default();
    cpu.set_register(0, 1);
    cpu.set_register(1, 2);
    cpu.execute(0x5010, 0).unwrap();
    assert_eq!(cpu.pc(), 0x202);
    cpu.execute(0x9010, 0).unwrap();
    assert_eq!(cpu.pc(), 0x206);
    cpu.set_register(1, 1);
    cpu.execute(0x5010, 0).unwrap();
    assert_eq!(cpu.pc(), 0x20A);
}

#[test]
fn index_and_jump_instructions() {
    let mut cpu = Cpu::default();
    cpu.execute(0xA123, 0).unwrap();
    assert_eq!(cpu.index(), 0x123);
    cpu.set_register(2, 0x10);
    cpu.execute(0xF21E, 0).unwrap();
    assert_eq!(cpu.index(), 0x133);
    cpu.set_register(2, 0xA);
    cpu.execute(0xF229, 0).unwrap();
    assert_eq!(cpu.index(), 50);
    cpu.set_register(0, 4);
    cpu.execute(0xB300, 0).unwrap();
    assert_eq!(cpu.pc(), 0x304);
}

#[test]
fn random_byte_is_masked() {
    let mut cpu = Cpu::default();
    cpu.execute(0xC30F, 0xAB).unwrap();
    assert_eq!(cpu.register(3), 0x0B);
    assert!(cpu.get_op_code(0xC40F).is_ok());
    assert!(cpu.register(4) <= 0x0F);
}

#[test]
fn key_skips() {
    let mut cpu = Cpu::default();
    cpu.set_register(2, 0xE);
    cpu.execute(0xE29E, 0).unwrap();
    assert_eq!(cpu.pc(), 0x202);
    cpu.execute(0xE2A1, 0).unwrap();
    assert_eq!(cpu.pc(), 0x206);
    cpu.keyboard.press_key(vec![0xE]);
    cpu.execute(0xE29E, 0).unwrap();
    assert_eq!(cpu.pc(), 0x20A);
    cpu.execute(0xE2A1, 0).unwrap();
    assert_eq!(cpu.pc(), 0x20C);
}

#[test]
fn unknown_instruction_is_a_no_op() {
    let mut cpu = Cpu::default();
    cpu.set_register(1, 5);
    cpu.execute(0x8129, 0).unwrap();
    cpu.execute(0xF1FF, 0).unwrap();
    cpu.execute(0x0123, 0).unwrap();
    assert_eq!(cpu.register(1), 5);
    assert_eq!(cpu.pc(), 0x206);
}

#[test]
fn delay_timer_read_back() {
    let mut cpu = Cpu::default();
    cpu.set_register(1, 42);
    cpu.execute(0xF115, 0).unwrap();
    cpu.execute(0xF207, 0).unwrap();
    assert_eq!(cpu.register(2), 42);
}

#[test]
fn cycle_runs_a_tick() {
    let mut cpu = cpu_with(&[0x70, 0x01, 0x12, 0x00]);
    cpu.set_register(0, 3);
    cpu.execute(0xF015, 0).unwrap();
    cpu.execute(0x1200, 0).unwrap();
    assert!(cpu.cycle().is_ok());
    // ten instructions: five increments, five jumps
    assert_eq!(cpu.register(0), 8);
    assert_eq!(cpu.delay_timer(), 2);
}

#[test]
fn tick_reports_unknown_instructions() {
    // 0x200: unknown 0x8128; 0x202: V1 = 2; 0x204: unknown 0xF1FF; 0x206: jump to 0x206
    let mut cpu = cpu_with(&[0x81, 0x28, 0x61, 0x02, 0xF1, 0xFF, 0x12, 0x06]);
    assert_eq!(cpu.run_tick(&vec![0u8; 5]), Ok(vec![0x8128, 0xF1FF]));
    assert_eq!(cpu.register(1), 2);
    assert_eq!(cpu.pc(), 0x206);
    assert_eq!(cpu.step(0), Ok(None));
}

#[test]
fn known_instruction_words() {
    assert!(chip8::cpu::is_known_opcode(0x00E0));
    assert!(chip8::cpu::is_known_opcode(0x8AB6));
    assert!(chip8::cpu::is_known_opcode(0xF065));
    assert!(!chip8::cpu::is_known_opcode(0x0123));
    assert!(!chip8::cpu::is_known_opcode(0x800F));
    assert!(!chip8::cpu::is_known_opcode(0xE1A2));
}

#[test]
fn fault_in_a_tick_keeps_the_state_before_it() {
    // 0x200: V1 = 7; 0x202: return with an empty stack; 0x204: V2 = 9
    let mut cpu = cpu_with(&[0x61, 0x07, 0x00, 0xEE, 0x62, 0x09]);
    cpu.set_register(0, 5);
    cpu.execute(0xF015, 0).unwrap();
    cpu.execute(0x1200, 0).unwrap();
    assert_eq!(
        cpu.run_tick(&vec![0u8; 10]),
        Err(CpuError::EmptyStack { pc: 0x202, opcode: 0x00EE })
    );
    assert_eq!(cpu.register(1), 7);
    assert_eq!(cpu.register(2), 0);
    assert_eq!(cpu.pc(), 0x202);
    assert_eq!(cpu.delay_timer(), 5);
}

#[test]
fn fault_after_a_key_press_keeps_waiting() {
    // 0x200: wait for a key into V5; 0x202: return with an empty stack
    let mut cpu = cpu_with(&[0xF5, 0x0A, 0x00, 0xEE]);
    cpu.set_register(5, 42);
    assert_eq!(cpu.step(0), Ok(None));
    assert!(cpu.is_paused());
    cpu.keyboard.press_key(vec![6]);
    assert_eq!(
        cpu.step(0),
        Err(CpuError::EmptyStack { pc: 0x202, opcode: 0x00EE })
    );
    assert!(cpu.is_paused());
    assert_eq!(cpu.register(5), 42);
    assert_eq!(cpu.pc(), 0x202);
}
