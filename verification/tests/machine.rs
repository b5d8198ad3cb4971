use emul8tor::input::InputEvent;
use emul8tor::{Chip8, KeyWait, Mode, VmError, MEMORY_SIZE, ROM_START_ADDRESS};

fn boot(mode: Mode, program: &[u8]) -> Chip8 {
    let mut memory = vec![0u8; MEMORY_SIZE];
    for (i, b) in program.iter().enumerate() {
        memory[ROM_START_ADDRESS + i] = *b;
    }
    Chip8::new(mode, memory)
}

fn run_cycles(vm: &mut Chip8, cycles: usize) {
    for _ in 0..cycles {
        vm.emulate_cycle().expect("cycle failed");
    }
}

#[test]
fn test_font_loaded_at_base() {
    let vm = boot(Mode::Chip8, &[]);
    assert_eq!(vm.memory_byte(0), 0xF0);
    assert_eq!(vm.memory_byte(4), 0xF0);
    assert_eq!(vm.memory_byte(79), 0x80);
    assert_eq!(vm.program_counter(), 0x200);
    assert_eq!(vm.index_register(), 0);
    assert_eq!(vm.stack_depth(), 0);
    assert_eq!(vm.key_wait_state(), KeyWait::Running);
}

#[test]
fn test_add_with_carry() {
    // 200 + 100 overflows: the result wraps and the flag is set.
    let mut vm = boot(Mode::Chip8, &[0x60, 0xC8, 0x61, 0x64, 0x80, 0x14]);
    run_cycles(&mut vm, 3);
    assert_eq!(vm.register(0), 44);
    assert_eq!(vm.register(15), 1);
}

#[test]
fn test_add_without_carry() {
    let mut vm = boot(Mode::Chip8, &[0x60, 0x14, 0x61, 0x0A, 0x80, 0x14]);
    run_cycles(&mut vm, 3);
    assert_eq!(vm.register(0), 30);
    assert_eq!(vm.register(15), 0);
}

#[test]
fn test_sub_with_borrow() {
    // 50 - 60 borrows: the result wraps and the flag stays 0.
    let mut vm = boot(Mode::Chip8, &[0x60, 0x32, 0x61, 0x3C, 0x80, 0x15]);
    run_cycles(&mut vm, 3);
    assert_eq!(vm.register(0), 246);
    assert_eq!(vm.register(15), 0);
}

#[test]
fn test_sub_without_borrow_mode_independent() {
    // The no-borrow flag is 1 whenever Vx >= Vy, whatever the mode.
    for mode in [Mode::Chip8, Mode::SuperChip, Mode::XOChip] {
        let mut vm = boot(mode, &[0x60, 0x3C, 0x61, 0x32, 0x80, 0x15]);
        run_cycles(&mut vm, 3);
        assert_eq!(vm.register(0), 10);
        assert_eq!(vm.register(15), 1);
    }
}

#[test]
fn test_or_resets_flag_in_classic_mode() {
    // VF = 5, then OR V0,V1: classic mode zeroes the flag.
    let mut vm = boot(Mode::Chip8, &[0x6F, 0x05, 0x80, 0x11]);
    run_cycles(&mut vm, 2);
    assert_eq!(vm.register(15), 0);
}

#[test]
fn test_or_keeps_flag_in_extended_modes() {
    for mode in [Mode::SuperChip, Mode::XOChip] {
        let mut vm = boot(mode, &[0x6F, 0x05, 0x80, 0x11]);
        run_cycles(&mut vm, 2);
        assert_eq!(vm.register(15), 5);
    }
}

#[test]
fn test_shift_copies_source_per_mode() {
    // 8xy6: classic copies Vy into Vx first; the super variant does not.
    let program = [0x60, 0x08, 0x61, 0x03, 0x80, 0x16];
    let mut classic = boot(Mode::Chip8, &program);
    run_cycles(&mut classic, 3);
    assert_eq!(classic.register(0), 1); // 3 >> 1
    assert_eq!(classic.register(15), 1); // low bit of 3

    let mut super_chip = boot(Mode::SuperChip, &program);
    run_cycles(&mut super_chip, 3);
    assert_eq!(super_chip.register(0), 4); // 8 >> 1
    assert_eq!(super_chip.register(15), 0); // low bit of 8
}

#[test]
fn test_jump_with_offset_per_mode() {
    // B234: classic adds V0; the super variant adds V2 instead.
    let program = [0x60, 0x04, 0x62, 0x10, 0xB2, 0x34];
    let mut classic = boot(Mode::Chip8, &program);
    run_cycles(&mut classic, 3);
    assert_eq!(classic.program_counter(), 0x238);

    let mut super_chip = boot(Mode::SuperChip, &program);
    run_cycles(&mut super_chip, 3);
    assert_eq!(super_chip.program_counter(), 0x244);
}

#[test]
fn test_store_registers_advances_index_per_mode() {
    // F155 at I = 0x300: classic advances I by x + 1, super leaves it.
    let program = [0x60, 0x0B, 0x61, 0x16, 0xA3, 0x00, 0xF1, 0x55];
    let mut classic = boot(Mode::Chip8, &program);
    run_cycles(&mut classic, 4);
    assert_eq!(classic.memory_byte(0x300), 0x0B);
    assert_eq!(classic.memory_byte(0x301), 0x16);
    assert_eq!(classic.index_register(), 0x302);

    let mut super_chip = boot(Mode::SuperChip, &program);
    run_cycles(&mut super_chip, 4);
    assert_eq!(super_chip.memory_byte(0x300), 0x0B);
    assert_eq!(super_chip.index_register(), 0x300);
}

#[test]
fn test_load_registers_from_memory() {
    // F165 reads back what F155 wrote, into fresh registers.
    let mut vm = boot(
        Mode::SuperChip,
        &[
            0x60, 0x2A, 0x61, 0x07, 0xA3, 0x00, 0xF1, 0x55, 0x60, 0x00, 0x61, 0x00, 0xF1, 0x65,
        ],
    );
    run_cycles(&mut vm, 7);
    assert_eq!(vm.register(0), 0x2A);
    assert_eq!(vm.register(1), 0x07);
}

#[test]
fn test_bcd_of_font_glyph_program() {
    // Set I to the glyph address for digit 5, then store the BCD of 205
    // there: memory at I, I+1, I+2 reads 2, 0, 5.
    let mut vm = boot(
        Mode::Chip8,
        &[0x60, 0x05, 0xF0, 0x29, 0x61, 0xCD, 0xF1, 0x33],
    );
    run_cycles(&mut vm, 4);
    assert_eq!(vm.index_register(), 25);
    assert_eq!(vm.memory_byte(25), 2);
    assert_eq!(vm.memory_byte(26), 0);
    assert_eq!(vm.memory_byte(27), 5);
}

#[test]
fn test_double_draw_clears_and_reports_collision() {
    // Draw the 8-wide sprite byte 0xFF twice at (5, 3): no collision the
    // first time, collision the second, and the pixels are clear again.
    let mut memory = vec![0u8; MEMORY_SIZE];
    let program = [0xA3, 0x00, 0x60, 0x05, 0x61, 0x03, 0xD0, 0x11, 0xD0, 0x11];
    for (i, b) in program.iter().enumerate() {
        memory[ROM_START_ADDRESS + i] = *b;
    }
    memory[0x300] = 0xFF;
    let mut vm = Chip8::new(Mode::Chip8, memory);
    run_cycles(&mut vm, 4);
    assert_eq!(vm.register(15), 0);
    for j in 0..8 {
        assert_eq!(vm.display.get_pixel(5 + j, 3), 1);
    }
    run_cycles(&mut vm, 1);
    assert_eq!(vm.register(15), 1);
    for j in 0..8 {
        assert_eq!(vm.display.get_pixel(5 + j, 3), 0);
    }
}

#[test]
fn test_draw_clips_in_classic_mode_and_wraps_in_xochip() {
    // A sprite anchored two pixels from the right edge: classic clips the
    // overhang, the extended-memory mode wraps it to the left edge.
    let mut memory = vec![0u8; MEMORY_SIZE];
    let program = [0xA3, 0x00, 0x60, 0x3E, 0x61, 0x00, 0xD0, 0x11];
    for (i, b) in program.iter().enumerate() {
        memory[ROM_START_ADDRESS + i] = *b;
    }
    memory[0x300] = 0xFF;

    let mut classic = Chip8::new(Mode::Chip8, memory.clone());
    run_cycles(&mut classic, 4);
    assert_eq!(classic.display.get_pixel(62, 0), 1);
    assert_eq!(classic.display.get_pixel(63, 0), 1);
    assert_eq!(classic.display.get_pixel(0, 0), 0);

    let mut xo = Chip8::new(Mode::XOChip, memory);
    run_cycles(&mut xo, 4);
    assert_eq!(xo.display.get_pixel(62, 0), 1);
    assert_eq!(xo.display.get_pixel(63, 0), 1);
    for j in 0..6 {
        assert_eq!(xo.display.get_pixel(j, 0), 1);
    }
}

#[test]
fn test_clear_screen_opcode() {
    let mut memory = vec![0u8; MEMORY_SIZE];
    let program = [0xA3, 0x00, 0x60, 0x05, 0x61, 0x03, 0xD0, 0x11, 0x00, 0xE0];
    for (i, b) in program.iter().enumerate() {
        memory[ROM_START_ADDRESS + i] = *b;
    }
    memory[0x300] = 0xFF;
    let mut vm = Chip8::new(Mode::Chip8, memory);
    run_cycles(&mut vm, 5);
    for j in 0..8 {
        assert_eq!(vm.display.get_pixel(5 + j, 3), 0);
    }
}

#[test]
fn test_resolution_round_trip() {
    // High resolution and back: the original low-resolution dimensions,
    // fully cleared.
    let mut vm = boot(Mode::SuperChip, &[0x00, 0xFF, 0x00, 0xFE]);
    run_cycles(&mut vm, 1);
    assert_eq!(vm.display.width(), 128);
    assert_eq!(vm.display.height(), 64);
    run_cycles(&mut vm, 1);
    assert_eq!(vm.display.width(), 64);
    assert_eq!(vm.display.height(), 32);
    for y in 0..32 {
        for x in 0..64 {
            assert_eq!(vm.display.get_pixel(x, y), 0);
        }
    }
}

#[test]
fn test_scroll_opcodes_illegal_in_classic_mode() {
    let opcodes: Vec<u16> = vec![0x00C1, 0x00D1, 0x00FB, 0x00FC, 0x00FE, 0x00FF];
    for op in opcodes {
        let program = [(op >> 8) as u8, (op & 0xFF) as u8];
        let mut vm = boot(Mode::Chip8, &program);
        assert_eq!(vm.emulate_cycle(), Err(VmError::Decode(op, 0x200)));
    }
}

#[test]
fn test_scroll_down_opcode() {
    // 00C2 in the super variant scrolls the drawn row down two rows.
    let mut memory = vec![0u8; MEMORY_SIZE];
    let program = [0xA3, 0x00, 0x60, 0x05, 0x61, 0x03, 0xD0, 0x11, 0x00, 0xC2];
    for (i, b) in program.iter().enumerate() {
        memory[ROM_START_ADDRESS + i] = *b;
    }
    memory[0x300] = 0xFF;
    let mut vm = Chip8::new(Mode::SuperChip, memory);
    run_cycles(&mut vm, 5);
    for j in 0..8 {
        assert_eq!(vm.display.get_pixel(5 + j, 3), 0);
        assert_eq!(vm.display.get_pixel(5 + j, 5), 1);
    }
}

#[test]
fn test_key_wait_state_machine() {
    // Fx0A with x = 3: the machine stops fetching until key 0xA is
    // released, then stores it in V3 and runs again.
    let mut vm = boot(Mode::Chip8, &[0xF3, 0x0A]);
    run_cycles(&mut vm, 1);
    assert_eq!(vm.key_wait_state(), KeyWait::AwaitingRelease(3));
    let pc_during_wait = vm.program_counter();

    // Cycles during the wait poll and fetch nothing.
    run_cycles(&mut vm, 3);
    assert_eq!(vm.program_counter(), pc_during_wait);
    assert_eq!(vm.key_wait_state(), KeyWait::AwaitingRelease(3));

    vm.input.update(&vec![InputEvent::KeyUp(0xA)]);
    run_cycles(&mut vm, 1);
    assert_eq!(vm.register(3), 0xA);
    assert_eq!(vm.key_wait_state(), KeyWait::Running);
    assert_eq!(vm.program_counter(), pc_during_wait);
}

#[test]
fn test_skip_on_key_state() {
    // E09E skips while key 4 is held; E0A1 skips once it is released.
    let mut vm = boot(
        Mode::Chip8,
        &[0x60, 0x04, 0xE0, 0x9E, 0x00, 0x00, 0xE0, 0xA1],
    );
    vm.input.update(&vec![InputEvent::KeyDown(0x4)]);
    run_cycles(&mut vm, 2);
    assert_eq!(vm.program_counter(), 0x206);
    vm.input.update(&vec![InputEvent::KeyUp(0x4)]);
    run_cycles(&mut vm, 1);
    assert_eq!(vm.program_counter(), 0x20A);
}

#[test]
fn test_timers_decrement_and_floor() {
    let mut vm = boot(
        Mode::Chip8,
        &[0x60, 0x02, 0xF0, 0x15, 0x61, 0x01, 0xF1, 0x18],
    );
    run_cycles(&mut vm, 4);
    assert_eq!(vm.delay(), 2);
    assert_eq!(vm.sound(), 1);
    assert!(vm.update_timers());
    assert_eq!(vm.delay(), 1);
    assert_eq!(vm.sound(), 0);
    assert!(!vm.update_timers());
    assert_eq!(vm.delay(), 0);
    assert_eq!(vm.sound(), 0);
    assert!(!vm.update_timers());
    assert_eq!(vm.delay(), 0);
}

#[test]
fn test_random_masking() {
    // C00F keeps only the low nibble; C100 must give exactly zero.
    let mut vm = boot(Mode::Chip8, &[0xC0, 0x0F, 0xC1, 0x00]);
    run_cycles(&mut vm, 2);
    assert!(vm.register(0) <= 0x0F);
    assert_eq!(vm.register(1), 0);
}

#[test]
fn test_apply_random_masks_byte() {
    let mut vm = boot(Mode::Chip8, &[]);
    vm.apply_random(2, 0xAA, 0x0F);
    assert_eq!(vm.register(2), 0x0A);
}

#[test]
fn test_call_and_return() {
    // Call 0x206, which returns straight back; then jump to 0x204.
    let mut vm = boot(
        Mode::Chip8,
        &[0x22, 0x06, 0x12, 0x04, 0x00, 0x00, 0x00, 0xEE],
    );
    run_cycles(&mut vm, 1);
    assert_eq!(vm.program_counter(), 0x206);
    assert_eq!(vm.stack_depth(), 1);
    run_cycles(&mut vm, 1);
    assert_eq!(vm.program_counter(), 0x202);
    assert_eq!(vm.stack_depth(), 0);
}

#[test]
fn test_stack_underflow() {
    let mut vm = boot(Mode::Chip8, &[0x00, 0xEE]);
    assert_eq!(vm.emulate_cycle(), Err(VmError::StackUnderflow));
}

#[test]
fn test_stack_overflow() {
    // A subroutine that calls itself: the seventeenth call overflows.
    let mut vm = boot(Mode::Chip8, &[0x22, 0x00]);
    for _ in 0..16 {
        assert_eq!(vm.emulate_cycle(), Ok(()));
    }
    assert_eq!(vm.stack_depth(), 16);
    assert_eq!(vm.emulate_cycle(), Err(VmError::StackOverflow));
}

#[test]
fn test_unknown_opcode_is_decode_error() {
    let mut vm = boot(Mode::Chip8, &[0x80, 0x0A]);
    assert_eq!(vm.emulate_cycle(), Err(VmError::Decode(0x800A, 0x200)));
}

#[test]
fn test_fetch_out_of_bounds() {
    // Jump to the last byte of memory: the next fetch cannot read two
    // bytes and fails loudly.
    let mut vm = boot(Mode::Chip8, &[0x1F, 0xFF]);
    run_cycles(&mut vm, 1);
    assert_eq!(vm.program_counter(), 0xFFF);
    assert_eq!(vm.emulate_cycle(), Err(VmError::OutOfBounds));
    assert_eq!(vm.program_counter(), 0xFFF);
}

#[test]
fn test_bcd_out_of_bounds() {
    // I = 0xFFE leaves no room for three digits.
    let mut vm = boot(Mode::Chip8, &[0xAF, 0xFE, 0xF0, 0x33]);
    run_cycles(&mut vm, 1);
    assert_eq!(vm.emulate_cycle(), Err(VmError::OutOfBounds));
}

#[test]
fn test_store_registers_out_of_bounds() {
    // I = 0xFFF with two registers to store runs past the memory end.
    let mut vm = boot(Mode::Chip8, &[0xAF, 0xFF, 0xF1, 0x55]);
    run_cycles(&mut vm, 1);
    assert_eq!(vm.emulate_cycle(), Err(VmError::OutOfBounds));
}

#[test]
fn test_skip_instructions() {
    // 3xkk skips when equal, 4xkk skips when unequal.
    let mut vm = boot(Mode::Chip8, &[0x60, 0x07, 0x30, 0x07]);
    run_cycles(&mut vm, 2);
    assert_eq!(vm.program_counter(), 0x206);

    let mut vm2 = boot(Mode::Chip8, &[0x60, 0x07, 0x40, 0x07]);
    run_cycles(&mut vm2, 2);
    assert_eq!(vm2.program_counter(), 0x204);
}

#[test]
fn test_index_add() {
    // Fx1E adds Vx into the 16-bit index register with no bounds check:
    // the sum may point past the memory array.
    let mut vm = boot(Mode::Chip8, &[0x60, 0xFF, 0xAF, 0xFF, 0xF0, 0x1E]);
    run_cycles(&mut vm, 3);
    assert_eq!(vm.index_register(), 0x10FE);
}

#[test]
fn test_machine_code_routine_ignored() {
    // 0nnn with a nonzero address nibble is ignored.
    let mut vm = boot(Mode::Chip8, &[0x02, 0x34, 0x60, 0x09]);
    run_cycles(&mut vm, 2);
    assert_eq!(vm.register(0), 9);
}
