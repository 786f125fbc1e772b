use chippy8::machine::{Machine, ROM_START_ADDRESS};
use chippy8::timers::Timers;

fn from_instrhex(data: &[u16]) -> Machine {
    let mut machine = Machine::default();
    machine.load_rom_from_instrhex(data);
    machine
}

#[test]
fn test_instr_clear_screen() {
    let mut machine = from_instrhex(&[0x00E0]);
    machine.display.set_pixel(5, 7, true);
    machine.execute_one();
    assert!(!machine.display.pixel(5, 7));
}

#[test]
fn test_instr_jump() {
    let mut machine = from_instrhex(&[0x1ABC]);
    assert_eq!(machine.program_counter, 0x200);
    machine.execute_one();
    assert_eq!(machine.program_counter, 0xABC);
}

#[test]
fn test_instr_set_reg_to_val() {
    let mut machine = from_instrhex(&[0x6CDE]);
    machine.execute_one();
    assert_eq!(machine.registers[0xC], 0xDE);
}

#[test]
fn test_instr_add_val_to_reg() {
    let mut machine = from_instrhex(&[0x7032]);
    // Overflow wraps and must not set the flag register for this opcode.
    machine.registers[0] = 0xFF;
    machine.execute_one();
    assert_eq!(machine.registers[0], 0x31);
    assert_eq!(machine.flag_register(), 0);
}

#[test]
fn test_instr_set_index_register() {
    let mut machine = from_instrhex(&[0xABCD]);
    machine.execute_one();
    assert_eq!(machine.index_register, 0xBCD);
}

#[test]
fn test_instr_display() {
    let mut machine = from_instrhex(&[0xD123, 0xD123]);
    machine.registers[1] = 10;
    machine.registers[2] = 5;
    machine.index_register = 0x345;
    machine.ram[0x345] = 0b11110000;
    machine.ram[0x345 + 1] = 0b00001111;
    machine.ram[0x345 + 2] = 0b001111000;
    // This row must not be drawn (N=3 in the instruction above).
    machine.ram[0x345 + 3] = 0b10100000;

    assert_eq!(machine.display.pixels().count_value(true), 0);

    // The first execution shows the sprite.
    machine.execute_one();
    // First row
    assert!(machine.display.pixel(10, 5));
    assert!(machine.display.pixel(11, 5));
    assert!(!machine.display.pixel(14, 5));
    // Second row
    assert!(!machine.display.pixel(13, 6));
    assert!(machine.display.pixel(14, 6));
    // Third row
    assert!(!machine.display.pixel(10, 7));
    assert!(machine.display.pixel(14, 7));
    // Total white pixels
    assert_eq!(machine.display.pixels().count_value(true), 12);

    // Executing a second time erases it.
    machine.execute_one();
    assert_eq!(machine.display.pixels().count_value(true), 0);
}

#[test]
fn test_instr_subroutine() {
    let mut machine = from_instrhex(&[
        0x2000 + ROM_START_ADDRESS as u16 + 6, // calls subroutine starting two instructions below
        0x6001,                                // set v0 to '1'
        0x1000 + ROM_START_ADDRESS as u16 + 4, // infinite loop to self
        // subroutine:
        0x6002, // set v0 to '2'
        0x00EE, // return
    ]);
    for _ in 0..5 {
        machine.execute_one();
    }
    assert_eq!(machine.registers[0], 1);
    // The return must have popped the stack.
    assert_eq!(machine.stack_index, 0);
}

#[test]
fn test_instr_skip_if_equal_reg_val() {
    let mut machine = from_instrhex(&[
        0x3210, // skip if equal => will skip next
        0x1FFF, // jump to invalid address, this should be skipped
        0x3211, // skip if equal => this shouldn't skip
        0x61FF, // set a register
    ]);
    machine.registers[2] = 0x10;
    for _ in 0..4 {
        machine.execute_one();
    }
    assert_eq!(machine.registers[1], 0xFF);
}

#[test]
fn test_instr_skip_if_not_equal_reg_val() {
    let mut machine = from_instrhex(&[
        0x4211, // skip if not equal => will skip next
        0x1FFF, // jump to invalid address, this should be skipped
        0x4210, // skip if not equal => this shouldn't skip
        0x61FF, // set a register
    ]);
    machine.registers[2] = 0x10;
    for _ in 0..4 {
        machine.execute_one();
    }
    assert_eq!(machine.registers[1], 0xFF);
}

#[test]
fn test_instr_skip_if_equal_reg_reg() {
    let mut machine = from_instrhex(&[
        0x5120, // skip if equal => should skip
        0x1FFF, // jump to invalid address, this should be skipped
        0x5130, // skip if equal => this shouldn't skip
        0x60FF, // set a register
    ]);
    machine.registers[1] = 0x11;
    machine.registers[2] = 0x11;
    machine.registers[3] = 0x0;
    for _ in 0..4 {
        machine.execute_one();
    }
    assert_eq!(machine.registers[0], 0xFF);
}

#[test]
fn test_instr_skip_if_not_equal_reg_reg() {
    let mut machine = from_instrhex(&[
        0x9130, // skip if not equal => should skip
        0x1FFF, // jump to invalid address, this should be skipped
        0x9120, // skip if not equal => this shouldn't skip
        0x60FF, // set a register
    ]);
    machine.registers[1] = 0x11;
    machine.registers[2] = 0x11;
    machine.registers[3] = 0x0;
    for _ in 0..4 {
        machine.execute_one();
    }
    assert_eq!(machine.registers[0], 0xFF);
}

#[test]
fn test_instr_set() {
    let mut machine = from_instrhex(&[0x8120]);
    machine.registers[1] = 0x42;
    machine.registers[2] = 0x43;
    machine.execute_one();
    assert_eq!(machine.registers[1], 0x43);
    assert_eq!(machine.registers[2], 0x43);
}

#[test]
fn test_instr_or() {
    let mut machine = from_instrhex(&[0x8121]);
    machine.registers[1] = 0b0101;
    machine.registers[2] = 0b0011;
    machine.execute_one();
    assert_eq!(machine.registers[1], 0b0111);
}

#[test]
fn test_instr_and() {
    let mut machine = from_instrhex(&[0x8122]);
    machine.registers[1] = 0b0101;
    machine.registers[2] = 0b0011;
    machine.execute_one();
    assert_eq!(machine.registers[1], 0b0001);
}

#[test]
fn test_instr_xor() {
    let mut machine = from_instrhex(&[0x8123]);
    machine.registers[1] = 0b0101;
    machine.registers[2] = 0b0011;
    machine.execute_one();
    assert_eq!(machine.registers[1], 0b0110);
}

#[test]
fn test_instr_add() {
    let mut machine = from_instrhex(&[0x8124, 0x8124]);
    machine.registers[1] = 250;
    machine.registers[2] = 5;
    machine.execute_one();
    assert_eq!(machine.registers[1], 255);
    assert_eq!(machine.flag_register(), 0);

    machine.execute_one();
    assert_eq!(machine.registers[1], 4);
    assert_eq!(machine.flag_register(), 1);
}

#[test]
fn test_instr_subtract_xy() {
    let mut machine = from_instrhex(&[0x8125, 0x8125, 0x8125]);
    machine.registers[1] = 10;
    machine.registers[2] = 5;
    machine.execute_one();
    assert_eq!(machine.registers[1], 5);
    assert_eq!(machine.flag_register(), 1);

    machine.execute_one();
    assert_eq!(machine.registers[1], 0);
    assert_eq!(machine.flag_register(), 1);

    machine.execute_one();
    assert_eq!(machine.registers[1], 251);
    assert_eq!(machine.flag_register(), 0);
}

#[test]
fn test_instr_subtract_yx() {
    let mut machine = from_instrhex(&[0x8127, 0x8127, 0x8127]);
    machine.registers[1] = 5;
    machine.registers[2] = 10;
    machine.execute_one();
    assert_eq!(machine.registers[1], 5);
    assert_eq!(machine.flag_register(), 1);

    machine.registers[2] = 4;
    machine.execute_one();
    assert_eq!(machine.registers[1], 255);
    assert_eq!(machine.flag_register(), 0);
}

#[test]
fn test_instr_shift_right() {
    let mut machine = from_instrhex(&[0x8126, 0x8126]);
    machine.registers[1] = 0b0101;
    machine.execute_one();
    assert_eq!(machine.registers[1], 0b010);
    assert_eq!(machine.flag_register(), 1);

    machine.execute_one();
    assert_eq!(machine.registers[1], 0b01);
    assert_eq!(machine.flag_register(), 0);
}

#[test]
fn test_instr_shift_left() {
    let mut machine = from_instrhex(&[0x812E, 0x812E]);
    machine.registers[1] = 0b10101010;
    machine.execute_one();
    assert_eq!(machine.registers[1], 0b01010100);
    assert_eq!(machine.flag_register(), 1);

    machine.execute_one();
    assert_eq!(machine.registers[1], 0b10101000);
    assert_eq!(machine.flag_register(), 0);
}

#[test]
fn test_instr_jump_with_offset() {
    let mut machine = from_instrhex(&[0xB012]);
    machine.registers[0] = 5;
    machine.execute_one();
    assert_eq!(machine.program_counter, 0x012 + 5);
}

#[test]
fn test_instr_random() {
    // The generator cannot be seeded, so generate a few random numbers and
    // check they were ANDed with 0x0F.
    let mut machine = from_instrhex(&[
        0xC00F,                            // generate random number
        0x1000 + ROM_START_ADDRESS as u16, // infinite loop to the rng above
    ]);
    for _ in 0..10 {
        machine.execute_one();
        assert!(machine.registers[0] < 0x10);
    }
}

#[test]
fn test_instr_skip_if_pressed() {
    let mut machine = from_instrhex(&[0xE29E, 0x1FFF, 0x6001]);
    machine.registers[2] = 5;
    machine.key_pressed[5] = true;
    machine.execute_one();
    // Pressed keys are reset after each instruction.
    assert_eq!(machine.key_pressed[5], false);

    // The skip jumped over the bad jump, to the register set.
    machine.execute_one();
    assert_eq!(machine.registers[0], 1);
}

#[test]
fn test_instr_skip_if_not_pressed() {
    let mut machine = from_instrhex(&[0xE2A1, 0x1FFF, 0x6001]);
    machine.registers[2] = 5;
    machine.key_pressed[5] = false;
    machine.execute_one();
    // The skip jumped over the bad jump, to the register set.
    machine.execute_one();
    assert_eq!(machine.registers[0], 1);
}

#[test]
fn test_instr_read_delay_timer() {
    let mut machine = from_instrhex(&[0xF007]);
    machine.timers.delay = 234;
    machine.execute_one();
    assert_eq!(machine.registers[0], 234);
}

#[test]
fn test_instr_set_delay_timer() {
    let mut machine = from_instrhex(&[0xF015]);
    machine.timers = Timers::new(0);
    machine.registers[0] = 234;
    machine.execute_one_at(0, 0);
    assert_eq!(machine.timers.sound, 0);
    assert_eq!(machine.timers.delay, 234);
}

#[test]
fn test_instr_set_sound_timer() {
    let mut machine = from_instrhex(&[0xF018]);
    machine.timers = Timers::new(0);
    machine.registers[0] = 233;
    machine.execute_one_at(0, 0);
    assert_eq!(machine.timers.sound, 233);
    assert_eq!(machine.timers.delay, 0);
}

#[test]
fn test_timers_decrement() {
    let mut machine = from_instrhex(&[
        0x1000 + ROM_START_ADDRESS as u16, // an infinite loop to self
    ]);
    machine.timers = Timers::new(0);
    machine.timers.sound = 240;
    machine.timers.delay = 120;
    // Move time by 2 seconds, in steps that are not all divisible into
    // whole 60 Hz units, to exercise the carried remainder.
    machine.execute_one_at(850, 0);
    machine.execute_one_at(900, 0);
    machine.execute_one_at(1232, 0);
    machine.execute_one_at(2000, 0);
    assert_eq!(machine.timers.sound, 120);
    assert_eq!(machine.timers.delay, 0);
}

#[test]
fn test_instr_add_to_index() {
    let mut machine = from_instrhex(&[0xF31E]);
    machine.index_register = 67;
    machine.registers[3] = 233;
    machine.execute_one();
    assert_eq!(machine.index_register, 300);
}

#[test]
fn test_instr_get_key() {
    let mut machine = from_instrhex(&[
        0xF20A,                                // get key
        0x1000 + ROM_START_ADDRESS as u16 + 2, // infinite loop
    ]);
    // No key pressed => the instruction loops to itself.
    machine.execute_one();
    assert_eq!(machine.registers[2], 0);
    assert_eq!(machine.program_counter, ROM_START_ADDRESS);
    // Key pressed => store it in the register and move on.
    machine.key_pressed[4] = true;
    machine.execute_one();
    assert_eq!(machine.program_counter, ROM_START_ADDRESS + 2);
    assert_eq!(machine.registers[2], 4);
}

#[test]
fn test_instr_font_character() {
    let mut machine = from_instrhex(&[0xF129]);
    machine.registers[1] = 0xE;
    machine.execute_one();
    assert_eq!(machine.index_register, 0x50 + 14 * 4);
}

#[test]
fn test_instr_convert_to_decimal() {
    let mut machine = from_instrhex(&[0xF233]);
    machine.registers[2] = 156;
    machine.index_register = 42;
    machine.execute_one();
    assert_eq!(machine.ram[42], 1);
    assert_eq!(machine.ram[43], 5);
    assert_eq!(machine.ram[44], 6);
}

#[test]
fn test_instr_registers_to_memory() {
    let mut machine = from_instrhex(&[0xF355]);
    machine.registers[0] = 42;
    machine.registers[1] = 45;
    machine.registers[2] = 153;
    machine.registers[3] = 179;
    machine.registers[4] = 180; // should be ignored
    machine.index_register = 10;
    machine.execute_one();
    assert_eq!(machine.ram[10], 42);
    assert_eq!(machine.ram[11], 45);
    assert_eq!(machine.ram[12], 153);
    assert_eq!(machine.ram[13], 179);
    assert_eq!(machine.ram[14], 0);
}

#[test]
fn test_instr_memory_to_registers() {
    let mut machine = from_instrhex(&[0xF265]);
    machine.index_register = 20;
    machine.ram[20] = 42;
    machine.ram[21] = 43;
    machine.ram[22] = 134;
    machine.ram[23] = 144; // should be ignored

    machine.execute_one();
    assert_eq!(machine.registers[0], 42);
    assert_eq!(machine.registers[1], 43);
    assert_eq!(machine.registers[2], 134);
    assert_eq!(machine.registers[3], 0);
}
