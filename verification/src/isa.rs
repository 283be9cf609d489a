//! Instruction decoding: the 16-bit opcode layout and the tagged union the
//! execute engine dispatches on. Field conventions: `X` is bits 8-11 and
//! `Y` bits 4-7, each selecting a register; `NNN` is the low 12 bits as an
//! address; `NN` the low 8 bits as an immediate; `N` the low 4 bits as a
//! sprite height.

use vstd::prelude::*;

verus! {

/// A decoded instruction. Any 16-bit pattern outside the instruction set
/// decodes to `Unknown`.
#[derive(Clone, Copy, Debug, PartialEq, Eq, Structural)]
pub enum Instr {
    /// 00E0: clear all display pixels.
    Cls,
    /// 00EE: pop a return address into the program counter.
    Ret,
    /// 1NNN: unconditional jump.
    Jump(u16),
    /// 2NNN: push the program counter and jump.
    Call(u16),
    /// 3XNN: skip the next instruction if `register[X] == NN`.
    SkipEqImm(u8, u8),
    /// 4XNN: skip the next instruction if `register[X] != NN`.
    SkipNeImm(u8, u8),
    /// 5XY0: skip the next instruction if `register[X] == register[Y]`.
    SkipEqReg(u8, u8),
    /// 6XNN: `register[X] = NN`.
    SetImm(u8, u8),
    /// 7XNN: `register[X] += NN`, wrapping, flags untouched.
    AddImm(u8, u8),
    /// 8XY0: `register[X] = register[Y]`.
    Mov(u8, u8),
    /// 8XY1: `register[X] |= register[Y]`.
    Or(u8, u8),
    /// 8XY2: `register[X] &= register[Y]`.
    And(u8, u8),
    /// 8XY3: `register[X] ^= register[Y]`.
    Xor(u8, u8),
    /// 8XY4: wrapping add with the carry recorded in `register[0xF]`.
    AddCarry(u8, u8),
    /// 8XY5: wrapping subtract with the no-borrow flag in `register[0xF]`.
    SubBorrow(u8, u8),
    /// 8XY6: shift `register[X]` right by one, old low bit into
    /// `register[0xF]` (operates on X itself, not Y).
    ShiftRight(u8),
    /// 8XY7: `register[X] = register[Y] - register[X]`, wrapping, with the
    /// no-borrow flag in `register[0xF]`.
    SubReverse(u8, u8),
    /// 8XYE: shift `register[X]` left by one, old high bit into
    /// `register[0xF]` (operates on X itself, not Y).
    ShiftLeft(u8),
    /// 9XY0: skip the next instruction if `register[X] != register[Y]`.
    SkipNeReg(u8, u8),
    /// ANNN: set the index pointer.
    SetIndex(u16),
    /// BNNN: jump to `register[0] + NNN` (register 0, not X).
    JumpOffset(u16),
    /// CXNN: `register[X] = NN & random byte`.
    RandMask(u8, u8),
    /// DXYN: draw an 8-wide, N-tall sprite at `(register[X], register[Y])`.
    Draw(u8, u8, u8),
    /// EX9E: skip if the key named by the low nibble of `register[X]` is
    /// pressed.
    SkipKeyPressed(u8),
    /// EXA1: skip if that key is not pressed.
    SkipKeyNotPressed(u8),
    /// FX07: `register[X] = delay_timer`.
    ReadDelay(u8),
    /// FX0A: wait for a key press by rewinding the program counter until
    /// one is down; then store its index in `register[X]`.
    WaitKey(u8),
    /// FX15: `delay_timer = register[X]`.
    SetDelay(u8),
    /// FX18: `sound_timer = register[X]`.
    SetSound(u8),
    /// FX1E: add `register[X]` to the index pointer, wrapping at 16 bits.
    AddIndex(u8),
    /// FX29: point the index pointer at the 5-byte font glyph for the
    /// digit in `register[X]`.
    FontIndex(u8),
    /// FX33: write the decimal digits of `register[X]` at the index
    /// pointer.
    StoreDigits(u8),
    /// FX55: copy `register[0]..=register[X]` to memory at the index
    /// pointer.
    StoreRegs(u8),
    /// FX65: load `register[0]..=register[X]` from memory at the index
    /// pointer.
    LoadRegs(u8),
    /// Any encoding outside the instruction set.
    Unknown,
}

/// Bits 8-11: the first register selector.
pub open spec fn op_x(i: u16) -> u8 {
    ((i >> 8) & 0x0F) as u8
}

/// Bits 4-7: the second register selector.
pub open spec fn op_y(i: u16) -> u8 {
    ((i >> 4) & 0x0F) as u8
}

/// The low byte: an immediate operand.
pub open spec fn op_nn(i: u16) -> u8 {
    (i & 0xFF) as u8
}

/// The low 12 bits: an address operand.
pub open spec fn op_nnn(i: u16) -> u16 {
    i & 0x0FFF
}

/// The low nibble: a sprite height.
pub open spec fn op_n(i: u16) -> u8 {
    (i & 0x0F) as u8
}

/// The decoded form of a 16-bit instruction word.
pub open spec fn parse_instr(i: u16) -> Instr {
    let x = op_x(i);
    let y = op_y(i);
    let nn = op_nn(i);
    let nnn = op_nnn(i);
    let n = op_n(i);
    if i == 0x00E0 {
        Instr::Cls
    } else if i == 0x00EE {
        Instr::Ret
    } else if i & 0xF000 == 0x1000 {
        Instr::Jump(nnn)
    } else if i & 0xF000 == 0x2000 {
        Instr::Call(nnn)
    } else if i & 0xF000 == 0x3000 {
        Instr::SkipEqImm(x, nn)
    } else if i & 0xF000 == 0x4000 {
        Instr::SkipNeImm(x, nn)
    } else if i & 0xF00F == 0x5000 {
        Instr::SkipEqReg(x, y)
    } else if i & 0xF000 == 0x6000 {
        Instr::SetImm(x, nn)
    } else if i & 0xF000 == 0x7000 {
        Instr::AddImm(x, nn)
    } else if i & 0xF00F == 0x8000 {
        Instr::Mov(x, y)
    } else if i & 0xF00F == 0x8001 {
        Instr::Or(x, y)
    } else if i & 0xF00F == 0x8002 {
        Instr::And(x, y)
    } else if i & 0xF00F == 0x8003 {
        Instr::Xor(x, y)
    } else if i & 0xF00F == 0x8004 {
        Instr::AddCarry(x, y)
    } else if i & 0xF00F == 0x8005 {
        Instr::SubBorrow(x, y)
    } else if i & 0xF00F == 0x8006 {
        Instr::ShiftRight(x)
    } else if i & 0xF00F == 0x8007 {
        Instr::SubReverse(x, y)
    } else if i & 0xF00F == 0x800E {
        Instr::ShiftLeft(x)
    } else if i & 0xF00F == 0x9000 {
        Instr::SkipNeReg(x, y)
    } else if i & 0xF000 == 0xA000 {
        Instr::SetIndex(nnn)
    } else if i & 0xF000 == 0xB000 {
        Instr::JumpOffset(nnn)
    } else if i & 0xF000 == 0xC000 {
        Instr::RandMask(x, nn)
    } else if i & 0xF000 == 0xD000 {
        Instr::Draw(x, y, n)
    } else if i & 0xF0FF == 0xE09E {
        Instr::SkipKeyPressed(x)
    } else if i & 0xF0FF == 0xE0A1 {
        Instr::SkipKeyNotPressed(x)
    } else if i & 0xF0FF == 0xF007 {
        Instr::ReadDelay(x)
    } else if i & 0xF0FF == 0xF00A {
        Instr::WaitKey(x)
    } else if i & 0xF0FF == 0xF015 {
        Instr::SetDelay(x)
    } else if i & 0xF0FF == 0xF018 {
        Instr::SetSound(x)
    } else if i & 0xF0FF == 0xF01E {
        Instr::AddIndex(x)
    } else if i & 0xF0FF == 0xF029 {
        Instr::FontIndex(x)
    } else if i & 0xF0FF == 0xF033 {
        Instr::StoreDigits(x)
    } else if i & 0xF0FF == 0xF055 {
        Instr::StoreRegs(x)
    } else if i & 0xF0FF == 0xF065 {
        Instr::LoadRegs(x)
    } else {
        Instr::Unknown
    }
}

/// The operand fields always fit their roles: register selectors and the
/// sprite height are nibbles, addresses are 12 bits.
pub proof fn lemma_field_bounds(i: u16)
    ensures
        op_x(i) < 16,
        op_y(i) < 16,
        op_n(i) < 16,
        op_nnn(i) < 0x1000,
{
    assert(((i >> 8) & 0x0F) < 16) by (bit_vector);
    assert(((i >> 4) & 0x0F) < 16) by (bit_vector);
    assert((i & 0x0F) < 16) by (bit_vector);
    assert((i & 0x0FFF) < 0x1000) by (bit_vector);
}

/// Decode one instruction word into its tagged form.
pub fn parse(i: u16) -> (r: Instr)
    ensures
        r == parse_instr(i),
{
    proof {
        lemma_field_bounds(i);
    }
    let x = ((i >> 8) & 0x0F) as u8;
    let y = ((i >> 4) & 0x0F) as u8;
    let nn = (i & 0xFF) as u8;
    let nnn = i & 0x0FFF;
    let n = (i & 0x0F) as u8;
    if i == 0x00E0 {
        Instr::Cls
    } else if i == 0x00EE {
        Instr::Ret
    } else if i & 0xF000 == 0x1000 {
        Instr::Jump(nnn)
    } else if i & 0xF000 == 0x2000 {
        Instr::Call(nnn)
    } else if i & 0xF000 == 0x3000 {
        Instr::SkipEqImm(x, nn)
    } else if i & 0xF000 == 0x4000 {
        Instr::SkipNeImm(x, nn)
    } else if i & 0xF00F == 0x5000 {
        Instr::SkipEqReg(x, y)
    } else if i & 0xF000 == 0x6000 {
        Instr::SetImm(x, nn)
    } else if i & 0xF000 == 0x7000 {
        Instr::AddImm(x, nn)
    } else if i & 0xF00F == 0x8000 {
        Instr::Mov(x, y)
    } else if i & 0xF00F == 0x8001 {
        Instr::Or(x, y)
    } else if i & 0xF00F == 0x8002 {
        Instr::And(x, y)
    } else if i & 0xF00F == 0x8003 {
        Instr::Xor(x, y)
    } else if i & 0xF00F == 0x8004 {
        Instr::AddCarry(x, y)
    } else if i & 0xF00F == 0x8005 {
        Instr::SubBorrow(x, y)
    } else if i & 0xF00F == 0x8006 {
        Instr::ShiftRight(x)
    } else if i & 0xF00F == 0x8007 {
        Instr::SubReverse(x, y)
    } else if i & 0xF00F == 0x800E {
        Instr::ShiftLeft(x)
    } else if i & 0xF00F == 0x9000 {
        Instr::SkipNeReg(x, y)
    } else if i & 0xF000 == 0xA000 {
        Instr::SetIndex(nnn)
    } else if i & 0xF000 == 0xB000 {
        Instr::JumpOffset(nnn)
    } else if i & 0xF000 == 0xC000 {
        Instr::RandMask(x, nn)
    } else if i & 0xF000 == 0xD000 {
        Instr::Draw(x, y, n)
    } else if i & 0xF0FF == 0xE09E {
        Instr::SkipKeyPressed(x)
    } else if i & 0xF0FF == 0xE0A1 {
        Instr::SkipKeyNotPressed(x)
    } else if i & 0xF0FF == 0xF007 {
        Instr::ReadDelay(x)
    } else if i & 0xF0FF == 0xF00A {
        Instr::WaitKey(x)
    } else if i & 0xF0FF == 0xF015 {
        Instr::SetDelay(x)
    } else if i & 0xF0FF == 0xF018 {
        Instr::SetSound(x)
    } else if i & 0xF0FF == 0xF01E {
        Instr::AddIndex(x)
    } else if i & 0xF0FF == 0xF029 {
        Instr::FontIndex(x)
    } else if i & 0xF0FF == 0xF033 {
        Instr::StoreDigits(x)
    } else if i & 0xF0FF == 0xF055 {
        Instr::StoreRegs(x)
    } else if i & 0xF0FF == 0xF065 {
        Instr::LoadRegs(x)
    } else {
        Instr::Unknown
    }
}

} // verus!
