use vstd::prelude::*;

verus! {

/// One decoded CHIP-8 instruction.
///
/// Register operands are 4-bit indices (0..16), immediates are 8-bit values
/// and addresses are 12-bit values. `Unknown` keeps the raw instruction word
/// together with the program-counter location it was fetched from.
#[derive(Clone, Copy, Debug, PartialEq, Eq, Structural)]
pub enum Instruction {
    Zero,
    ClearScreen,
    Jump(u16),
    SetRegToVal(u8, u8),
    AddValToReg(u8, u8),
    SetIndexRegister(u16),
    Display(u8, u8, u8),
    Subroutine(u16),
    Return,
    SkipIfEqualRegVal(u8, u8),
    SkipIfNotEqualRegVal(u8, u8),
    SkipIfEqualRegReg(u8, u8),
    SkipIfNotEqualRegReg(u8, u8),
    SetRegToReg(u8, u8),
    Or(u8, u8),
    And(u8, u8),
    Xor(u8, u8),
    Add(u8, u8),
    SubtractXY(u8, u8),
    SubtractYX(u8, u8),
    ShiftLeft(u8, u8),
    ShiftRight(u8, u8),
    JumpWithOffset(u16),
    Random(u8, u8),
    SkipIfKeyPressed(u8),
    SkipIfKeyNotPressed(u8),
    ReadDelayTimer(u8),
    SetDelayTimer(u8),
    SetSoundTimer(u8),
    AddToIndex(u8),
    GetKey(u8),
    FontCharacter(u8),
    ConvertToDecimal(u8),
    RegistersToMemory(u8),
    MemoryToRegisters(u8),
    Unknown(u16, usize),
}

/// Bits 12-15 of an instruction word: the dispatch category.
pub open spec fn spec_category(w: u16) -> u16 {
    (w >> 12) & 0xF
}

/// Bits 8-11: the first register operand.
pub open spec fn spec_vx(w: u16) -> u8 {
    (((w >> 8) & 0xF) as u8)
}

/// Bits 4-7: the second register operand.
pub open spec fn spec_vy(w: u16) -> u8 {
    (((w >> 4) & 0xF) as u8)
}

/// Bits 0-3: a 4-bit immediate.
pub open spec fn spec_n(w: u16) -> u8 {
    ((w & 0xF) as u8)
}

/// Bits 0-7: an 8-bit immediate.
pub open spec fn spec_nn(w: u16) -> u8 {
    ((w & 0xFF) as u8)
}

/// Bits 0-11: a 12-bit address.
pub open spec fn spec_nnn(w: u16) -> u16 {
    w & 0xFFF
}

/// The instruction that `decode` returns for the word `w` fetched at
/// `location`: the full dispatch table of the instruction set.
pub open spec fn spec_decode(w: u16, location: usize) -> Instruction {
    if w == 0 {
        Instruction::Zero
    } else if w == 0x00E0 {
        Instruction::ClearScreen
    } else if w == 0x00EE {
        Instruction::Return
    } else if spec_category(w) == 1 {
        Instruction::Jump(spec_nnn(w))
    } else if spec_category(w) == 2 {
        Instruction::Subroutine(spec_nnn(w))
    } else if spec_category(w) == 3 {
        Instruction::SkipIfEqualRegVal(spec_vx(w), spec_nn(w))
    } else if spec_category(w) == 4 {
        Instruction::SkipIfNotEqualRegVal(spec_vx(w), spec_nn(w))
    } else if spec_category(w) == 5 {
        Instruction::SkipIfEqualRegReg(spec_vx(w), spec_vy(w))
    } else if spec_category(w) == 6 {
        Instruction::SetRegToVal(spec_vx(w), spec_nn(w))
    } else if spec_category(w) == 7 {
        Instruction::AddValToReg(spec_vx(w), spec_nn(w))
    } else if spec_category(w) == 8 && spec_n(w) == 0 {
        Instruction::SetRegToReg(spec_vx(w), spec_vy(w))
    } else if spec_category(w) == 8 && spec_n(w) == 1 {
        Instruction::Or(spec_vx(w), spec_vy(w))
    } else if spec_category(w) == 8 && spec_n(w) == 2 {
        Instruction::And(spec_vx(w), spec_vy(w))
    } else if spec_category(w) == 8 && spec_n(w) == 3 {
        Instruction::Xor(spec_vx(w), spec_vy(w))
    } else if spec_category(w) == 8 && spec_n(w) == 4 {
        Instruction::Add(spec_vx(w), spec_vy(w))
    } else if spec_category(w) == 8 && spec_n(w) == 5 {
        Instruction::SubtractXY(spec_vx(w), spec_vy(w))
    } else if spec_category(w) == 8 && spec_n(w) == 6 {
        Instruction::ShiftRight(spec_vx(w), spec_vy(w))
    } else if spec_category(w) == 8 && spec_n(w) == 7 {
        Instruction::SubtractYX(spec_vx(w), spec_vy(w))
    } else if spec_category(w) == 8 && spec_n(w) == 0xE {
        Instruction::ShiftLeft(spec_vx(w), spec_vy(w))
    } else if spec_category(w) == 9 {
        Instruction::SkipIfNotEqualRegReg(spec_vx(w), spec_vy(w))
    } else if spec_category(w) == 0xA {
        Instruction::SetIndexRegister(spec_nnn(w))
    } else if spec_category(w) == 0xB {
        Instruction::JumpWithOffset(spec_nnn(w))
    } else if spec_category(w) == 0xC {
        Instruction::Random(spec_vx(w), spec_nn(w))
    } else if spec_category(w) == 0xD {
        Instruction::Display(spec_vx(w), spec_vy(w), spec_n(w))
    } else if spec_category(w) == 0xE && spec_nn(w) == 0x9E {
        Instruction::SkipIfKeyPressed(spec_vx(w))
    } else if spec_category(w) == 0xE && spec_nn(w) == 0xA1 {
        Instruction::SkipIfKeyNotPressed(spec_vx(w))
    } else if spec_category(w) == 0xF && spec_nn(w) == 0x07 {
        Instruction::ReadDelayTimer(spec_vx(w))
    } else if spec_category(w) == 0xF && spec_nn(w) == 0x15 {
        Instruction::SetDelayTimer(spec_vx(w))
    } else if spec_category(w) == 0xF && spec_nn(w) == 0x18 {
        Instruction::SetSoundTimer(spec_vx(w))
    } else if spec_category(w) == 0xF && spec_nn(w) == 0x1E {
        Instruction::AddToIndex(spec_vx(w))
    } else if spec_category(w) == 0xF && spec_nn(w) == 0x0A {
        Instruction::GetKey(spec_vx(w))
    } else if spec_category(w) == 0xF && spec_nn(w) == 0x29 {
        Instruction::FontCharacter(spec_vx(w))
    } else if spec_category(w) == 0xF && spec_nn(w) == 0x33 {
        Instruction::ConvertToDecimal(spec_vx(w))
    } else if spec_category(w) == 0xF && spec_nn(w) == 0x55 {
        Instruction::RegistersToMemory(spec_vx(w))
    } else if spec_category(w) == 0xF && spec_nn(w) == 0x65 {
        Instruction::MemoryToRegisters(spec_vx(w))
    } else {
        Instruction::Unknown(w, location)
    }
}

/// The operand bounds every decoded instruction satisfies: register
/// operands are below 16 and addresses below 4096 (8-bit immediates are
/// bounded by their type).
pub open spec fn spec_instr_bounds(i: Instruction) -> bool {
    match i {
        Instruction::Zero => true,
        Instruction::ClearScreen => true,
        Instruction::Jump(a) => a < 4096,
        Instruction::SetRegToVal(r, _v) => r < 16,
        Instruction::AddValToReg(r, _v) => r < 16,
        Instruction::SetIndexRegister(a) => a < 4096,
        Instruction::Display(rx, ry, n) => rx < 16 && ry < 16 && n < 16,
        Instruction::Subroutine(a) => a < 4096,
        Instruction::Return => true,
        Instruction::SkipIfEqualRegVal(r, _v) => r < 16,
        Instruction::SkipIfNotEqualRegVal(r, _v) => r < 16,
        Instruction::SkipIfEqualRegReg(rx, ry) => rx < 16 && ry < 16,
        Instruction::SkipIfNotEqualRegReg(rx, ry) => rx < 16 && ry < 16,
        Instruction::SetRegToReg(rx, ry) => rx < 16 && ry < 16,
        Instruction::Or(rx, ry) => rx < 16 && ry < 16,
        Instruction::And(rx, ry) => rx < 16 && ry < 16,
        Instruction::Xor(rx, ry) => rx < 16 && ry < 16,
        Instruction::Add(rx, ry) => rx < 16 && ry < 16,
        Instruction::SubtractXY(rx, ry) => rx < 16 && ry < 16,
        Instruction::SubtractYX(rx, ry) => rx < 16 && ry < 16,
        Instruction::ShiftLeft(rx, ry) => rx < 16 && ry < 16,
        Instruction::ShiftRight(rx, ry) => rx < 16 && ry < 16,
        Instruction::JumpWithOffset(a) => a < 4096,
        Instruction::Random(r, _v) => r < 16,
        Instruction::SkipIfKeyPressed(r) => r < 16,
        Instruction::SkipIfKeyNotPressed(r) => r < 16,
        Instruction::ReadDelayTimer(r) => r < 16,
        Instruction::SetDelayTimer(r) => r < 16,
        Instruction::SetSoundTimer(r) => r < 16,
        Instruction::AddToIndex(r) => r < 16,
        Instruction::GetKey(r) => r < 16,
        Instruction::FontCharacter(r) => r < 16,
        Instruction::ConvertToDecimal(r) => r < 16,
        Instruction::RegistersToMemory(r) => r < 16,
        Instruction::MemoryToRegisters(r) => r < 16,
        Instruction::Unknown(_w, _loc) => true,
    }
}

/// The nibble fields of every word are small: register operands fit in
/// 4 bits, immediates in 8 and addresses in 12.
pub proof fn lemma_field_bounds(w: u16)
    by (bit_vector)
    ensures
        (w >> 12) & 0xF < 16,
        (w >> 8) & 0xF < 16,
        (w >> 4) & 0xF < 16,
        w & 0xF < 16,
        w & 0xFF < 256,
        w & 0xFFF < 4096,
{
}

/// Translate a 16-bit instruction word, fetched at `location`, into the
/// instruction it encodes. Total: every word maps to exactly one case.
pub fn decode(bytes: u16, location: usize) -> (r: Instruction)
    ensures
        r == spec_decode(bytes, location),
        spec_instr_bounds(r),
{
    let category: u16 = (bytes >> 12) & 0xF;
    let vx: u8 = ((bytes >> 8) & 0xF) as u8;
    let vy: u8 = ((bytes >> 4) & 0xF) as u8;
    let n: u8 = (bytes & 0xF) as u8;
    let nn: u8 = (bytes & 0xFF) as u8;
    let nnn: u16 = bytes & 0xFFF;
    proof {
        lemma_field_bounds(bytes);
    }
    if bytes == 0 {
        Instruction::Zero
    } else if bytes == 0x00E0 {
        Instruction::ClearScreen
    } else if bytes == 0x00EE {
        Instruction::Return
    } else if category == 1 {
        Instruction::Jump(nnn)
    } else if category == 2 {
        Instruction::Subroutine(nnn)
    } else if category == 3 {
        Instruction::SkipIfEqualRegVal(vx, nn)
    } else if category == 4 {
        Instruction::SkipIfNotEqualRegVal(vx, nn)
    } else if category == 5 {
        Instruction::SkipIfEqualRegReg(vx, vy)
    } else if category == 6 {
        Instruction::SetRegToVal(vx, nn)
    } else if category == 7 {
        Instruction::AddValToReg(vx, nn)
    } else if category == 8 && n == 0 {
        Instruction::SetRegToReg(vx, vy)
    } else if category == 8 && n == 1 {
        Instruction::Or(vx, vy)
    } else if category == 8 && n == 2 {
        Instruction::And(vx, vy)
    } else if category == 8 && n == 3 {
        Instruction::Xor(vx, vy)
    } else if category == 8 && n == 4 {
        Instruction::Add(vx, vy)
    } else if category == 8 && n == 5 {
        Instruction::SubtractXY(vx, vy)
    } else if category == 8 && n == 6 {
        Instruction::ShiftRight(vx, vy)
    } else if category == 8 && n == 7 {
        Instruction::SubtractYX(vx, vy)
    } else if category == 8 && n == 0xE {
        Instruction::ShiftLeft(vx, vy)
    } else if category == 9 {
        Instruction::SkipIfNotEqualRegReg(vx, vy)
    } else if category == 0xA {
        Instruction::SetIndexRegister(nnn)
    } else if category == 0xB {
        Instruction::JumpWithOffset(nnn)
    } else if category == 0xC {
        Instruction::Random(vx, nn)
    } else if category == 0xD {
        Instruction::Display(vx, vy, n)
    } else if category == 0xE && nn == 0x9E {
        Instruction::SkipIfKeyPressed(vx)
    } else if category == 0xE && nn == 0xA1 {
        Instruction::SkipIfKeyNotPressed(vx)
    } else if category == 0xF && nn == 0x07 {
        Instruction::ReadDelayTimer(vx)
    } else if category == 0xF && nn == 0x15 {
        Instruction::SetDelayTimer(vx)
    } else if category == 0xF && nn == 0x18 {
        Instruction::SetSoundTimer(vx)
    } else if category == 0xF && nn == 0x1E {
        Instruction::AddToIndex(vx)
    } else if category == 0xF && nn == 0x0A {
        Instruction::GetKey(vx)
    } else if category == 0xF && nn == 0x29 {
        Instruction::FontCharacter(vx)
    } else if category == 0xF && nn == 0x33 {
        Instruction::ConvertToDecimal(vx)
    } else if category == 0xF && nn == 0x55 {
        Instruction::RegistersToMemory(vx)
    } else if category == 0xF && nn == 0x65 {
        Instruction::MemoryToRegisters(vx)
    } else {
        Instruction::Unknown(bytes, location)
    }
}

} // verus!
