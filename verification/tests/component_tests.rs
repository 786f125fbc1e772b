use chippy8::array2d::Array2D;
use chippy8::instructions::{decode, Instruction};
use chippy8::machine::{Machine, ROM_START_ADDRESS};
use chippy8::scheduler::{scheduler_step, ExecutionMode, Message};
use chippy8::texture::RGBAImage;
use chippy8::timers::Timers;

fn from_instrhex(data: &[u16]) -> Machine {
    let mut machine = Machine::default();
    machine.load_rom_from_instrhex(data);
    machine
}

#[test]
fn test_array2d_shape_and_cells() {
    let mut grid: Array2D<u8> = Array2D::new(3, 5, 7);
    assert_eq!(grid.rows(), 3);
    assert_eq!(grid.cols(), 5);
    assert_eq!(grid.as_slice().len(), 15);
    assert_eq!(grid.get(2, 4), 7);
    grid.set(1, 3, 9);
    assert_eq!(grid.get(1, 3), 9);
    assert_eq!(grid.as_slice()[1 * 5 + 3], 9);
    assert_eq!(grid.count_value(9), 1);
    assert_eq!(grid.count_value(7), 14);
    assert_eq!(grid.count_value(0), 0);
}

#[test]
fn test_plain_display_default() {
    let display = chippy8::display::Display::default();
    assert_eq!(display.pixels.rows(), 32);
    assert_eq!(display.pixels.cols(), 64);
    assert_eq!(display.pixels.count_value(true), 0);
}

#[test]
fn test_rgba_image_accessors() {
    let image = RGBAImage::new(vec![1, 2, 3, 4], 1, 1);
    assert_eq!(image.data(), &[1, 2, 3, 4]);
    assert_eq!(image.width(), 1);
    assert_eq!(image.height(), 1);
}

#[test]
fn test_decode_samples() {
    assert_eq!(decode(0x0000, 0), Instruction::Zero);
    assert_eq!(decode(0x00E0, 0), Instruction::ClearScreen);
    assert_eq!(decode(0x00EE, 0), Instruction::Return);
    assert_eq!(decode(0x1ABC, 0), Instruction::Jump(0xABC));
    assert_eq!(decode(0x2345, 0), Instruction::Subroutine(0x345));
    assert_eq!(decode(0x3A12, 0), Instruction::SkipIfEqualRegVal(0xA, 0x12));
    assert_eq!(decode(0x4A12, 0), Instruction::SkipIfNotEqualRegVal(0xA, 0x12));
    assert_eq!(decode(0x5AB0, 0), Instruction::SkipIfEqualRegReg(0xA, 0xB));
    assert_eq!(decode(0x6CDE, 0), Instruction::SetRegToVal(0xC, 0xDE));
    assert_eq!(decode(0x7032, 0), Instruction::AddValToReg(0, 0x32));
    assert_eq!(decode(0x8120, 0), Instruction::SetRegToReg(1, 2));
    assert_eq!(decode(0x8121, 0), Instruction::Or(1, 2));
    assert_eq!(decode(0x8122, 0), Instruction::And(1, 2));
    assert_eq!(decode(0x8123, 0), Instruction::Xor(1, 2));
    assert_eq!(decode(0x8124, 0), Instruction::Add(1, 2));
    assert_eq!(decode(0x8125, 0), Instruction::SubtractXY(1, 2));
    assert_eq!(decode(0x8126, 0), Instruction::ShiftRight(1, 2));
    assert_eq!(decode(0x8127, 0), Instruction::SubtractYX(1, 2));
    assert_eq!(decode(0x812E, 0), Instruction::ShiftLeft(1, 2));
    assert_eq!(decode(0x9AB0, 0), Instruction::SkipIfNotEqualRegReg(0xA, 0xB));
    assert_eq!(decode(0xABCD, 0), Instruction::SetIndexRegister(0xBCD));
    assert_eq!(decode(0xB012, 0), Instruction::JumpWithOffset(0x012));
    assert_eq!(decode(0xC00F, 0), Instruction::Random(0, 0x0F));
    assert_eq!(decode(0xD123, 0), Instruction::Display(1, 2, 3));
    assert_eq!(decode(0xE29E, 0), Instruction::SkipIfKeyPressed(2));
    assert_eq!(decode(0xE2A1, 0), Instruction::SkipIfKeyNotPressed(2));
    assert_eq!(decode(0xF007, 0), Instruction::ReadDelayTimer(0));
    assert_eq!(decode(0xF015, 0), Instruction::SetDelayTimer(0));
    assert_eq!(decode(0xF018, 0), Instruction::SetSoundTimer(0));
    assert_eq!(decode(0xF31E, 0), Instruction::AddToIndex(3));
    assert_eq!(decode(0xF20A, 0), Instruction::GetKey(2));
    assert_eq!(decode(0xF129, 0), Instruction::FontCharacter(1));
    assert_eq!(decode(0xF233, 0), Instruction::ConvertToDecimal(2));
    assert_eq!(decode(0xF355, 0), Instruction::RegistersToMemory(3));
    assert_eq!(decode(0xF265, 0), Instruction::MemoryToRegisters(2));
    // An encoding that matches no case keeps the raw word and its location.
    assert_eq!(decode(0x8128, 0x208), Instruction::Unknown(0x8128, 0x208));
    assert_eq!(decode(0xE2FF, 0x300), Instruction::Unknown(0xE2FF, 0x300));
}

#[test]
fn test_timers_tick_exact_values() {
    let mut timers = Timers::new(0);
    timers.delay = 10;
    timers.sound = 2;
    // 10 ms at 60 Hz is 0.6 of a decrement: nothing subtracted, remainder
    // carried.
    timers.tick(10);
    assert_eq!(timers.delay, 10);
    assert_eq!(timers.sound, 2);
    assert_eq!(timers.last_tick_ms, 10);
    // Another 10 ms completes 1.2 decrements: one whole unit subtracted.
    timers.tick(20);
    assert_eq!(timers.delay, 9);
    assert_eq!(timers.sound, 1);
    // A full second later, 60 more decrements, both counters floored at 0.
    timers.tick(1020);
    assert_eq!(timers.delay, 0);
    assert_eq!(timers.sound, 0);
}

#[test]
fn test_timers_backwards_clock_is_no_time() {
    let mut timers = Timers::new(1000);
    timers.delay = 5;
    timers.tick(0);
    assert_eq!(timers.delay, 5);
    assert_eq!(timers.last_tick_ms, 0);
}

#[test]
fn test_scheduler_step_cases() {
    let step = ExecutionMode::StepByStep;
    let cont = ExecutionMode::Continuous;
    // No message: step mode idles, continuous mode executes one.
    let plan = scheduler_step(step, None);
    assert!(!plan.exit);
    assert_eq!(plan.mode, step);
    assert_eq!(plan.steps, 0);
    let plan = scheduler_step(cont, None);
    assert!(!plan.exit);
    assert_eq!(plan.steps, 1);
    // A single-step message executes one, two if already continuous.
    let plan = scheduler_step(step, Some(Message::ExecuteOne));
    assert_eq!(plan.steps, 1);
    assert_eq!(plan.mode, step);
    let plan = scheduler_step(cont, Some(Message::ExecuteOne));
    assert_eq!(plan.steps, 2);
    // A mode change applies in the same cycle.
    let plan = scheduler_step(step, Some(Message::ChangeMode(cont)));
    assert_eq!(plan.mode, cont);
    assert_eq!(plan.steps, 1);
    let plan = scheduler_step(cont, Some(Message::ChangeMode(step)));
    assert_eq!(plan.mode, step);
    assert_eq!(plan.steps, 0);
    // Exit ends the loop at once, executing nothing.
    let plan = scheduler_step(cont, Some(Message::Exit));
    assert!(plan.exit);
    assert_eq!(plan.steps, 0);
}

#[test]
fn test_load_rom_truncates_at_memory_end() {
    let mut machine = Machine::default();
    let data = vec![7u8; 5000];
    machine.load_rom_from_bytes(&data);
    assert_eq!(machine.program_counter, ROM_START_ADDRESS);
    assert_eq!(machine.ram[ROM_START_ADDRESS], 7);
    assert_eq!(machine.ram[4095], 7);
    assert_eq!(machine.ram.len(), 4096);
}

#[test]
fn test_default_machine_has_font() {
    let machine = Machine::default();
    // First byte of glyph 0 and last byte of glyph F.
    assert_eq!(machine.ram[0x50], 0xF0);
    assert_eq!(machine.ram[0x50 + 79], 0x80);
    // Memory outside the font table is zero.
    assert_eq!(machine.ram[0x4F], 0);
    assert_eq!(machine.ram[0x50 + 80], 0);
    assert_eq!(machine.program_counter, 0);
    assert_eq!(machine.stack_index, 0);
}

#[test]
fn test_stack_depth_clamps_at_capacity() {
    // A subroutine that calls itself pushes forever; the depth must clamp
    // at the stack's capacity instead of running past it.
    let mut machine = from_instrhex(&[0x2000 + ROM_START_ADDRESS as u16]);
    for _ in 0..150 {
        machine.execute_one();
    }
    assert_eq!(machine.stack_index, 100);
}

#[test]
fn test_return_on_empty_stack_is_clamped() {
    let mut machine = from_instrhex(&[0x00EE]);
    machine.execute_one();
    // The clamped pop re-reads slot 0, which holds 0 on a fresh machine.
    assert_eq!(machine.stack_index, 0);
    assert_eq!(machine.program_counter, 0);
}

#[test]
fn test_display_to_image_packs_colors() {
    let mut machine = Machine::default();
    machine.display.set_pixel(3, 2, true);
    let image = machine.display.to_image();
    assert_eq!(image.width(), 64);
    assert_eq!(image.height(), 32);
    assert_eq!(image.data().len(), 64 * 32 * 4);
    let at = (2 * 64 + 3) * 4;
    assert_eq!(&image.data()[at..at + 4], &[255, 255, 255, 255]);
    // An off pixel is fully opaque black: alpha stays 255.
    assert_eq!(&image.data()[0..4], &[0, 0, 0, 255]);
}

#[test]
fn test_display_clear_and_counts() {
    let mut machine = Machine::default();
    machine.display.set_pixel(0, 0, true);
    machine.display.set_pixel(63, 31, true);
    assert_eq!(machine.display.pixels().count_value(true), 2);
    assert_eq!(machine.display.width(), 64);
    assert_eq!(machine.display.height(), 32);
    machine.display.clear();
    assert_eq!(machine.display.pixels().count_value(true), 0);
}

#[test]
fn test_display_sprite_clips_at_edges() {
    // An 8-wide, 2-row sprite drawn at x=62, y=31: only 2 columns and 1 row
    // fit; the rest is clipped, not wrapped.
    let mut machine = from_instrhex(&[0xD012]);
    machine.registers[0] = 62;
    machine.registers[1] = 31;
    machine.index_register = 0x300;
    machine.ram[0x300] = 0b11111111;
    machine.ram[0x301] = 0b11111111;
    machine.execute_one();
    assert_eq!(machine.display.pixels().count_value(true), 2);
    assert!(machine.display.pixel(62, 31));
    assert!(machine.display.pixel(63, 31));
    assert_eq!(machine.flag_register(), 0);
}

#[test]
fn test_decode_next_instruction_reads_at_pc() {
    let machine = from_instrhex(&[0x6CDE]);
    assert_eq!(machine.decode_next_instruction(), Instruction::SetRegToVal(0xC, 0xDE));
}

#[test]
fn test_add_to_index_flag_quirk() {
    // Crossing 0x1000 sets the flag; staying below leaves it untouched.
    let mut machine = from_instrhex(&[0xF01E, 0xF01E]);
    machine.index_register = 0xFFE;
    machine.registers[0] = 10;
    machine.execute_one();
    assert_eq!(machine.index_register, 0x1008);
    assert_eq!(machine.flag_register(), 1);
}

#[test]
fn test_timers_split_matches_single_tick() {
    // Two uneven ticks decay exactly as one tick over the whole span.
    let mut split = Timers::new(0);
    split.delay = 100;
    split.sound = 100;
    split.tick(777);
    split.tick(1500);
    let mut whole = Timers::new(0);
    whole.delay = 100;
    whole.sound = 100;
    whole.tick(1500);
    assert_eq!(split, whole);
    assert_eq!(split.delay, 10);
}
