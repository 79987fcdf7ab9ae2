//! The CHIP-8 instruction set and its 16-bit binary encoding.
//!
//! An opcode is one big-endian 16-bit word made of four nibbles. The top
//! nibble selects the instruction class; the remaining nibbles are read as a
//! register index `X` (bits 8..12), a register index `Y` (bits 4..8), a 4-bit
//! immediate `N`, an 8-bit immediate `NN` or a 12-bit address `NNN`.

use vstd::arithmetic::div_mod::lemma_fundamental_div_mod_converse;
use vstd::prelude::*;

verus! {

/// A 12-bit memory address.
pub type Addr = u16;

/// The index of one of the sixteen general purpose registers.
pub type Reg = u8;

#[derive(Debug, Clone, Copy, PartialEq, Eq, Structural)]
pub enum Instruction {
    /// `CLS` (`0x00E0`): clear the screen.
    ClearScreen,
    /// `RET` (`0x00EE`): return from a subroutine.
    Ret,
    /// `NOP` (`0x0000`, and every word that is no other instruction).
    Nop,
    /// `JP imm12` (`0x1NNN`): jump to an address.
    Jump(Addr),
    /// `CALL imm12` (`0x2NNN`): call the subroutine at an address.
    Call(Addr),
    /// `SE Vx imm8` (`0x3XNN`): skip the next instruction if `Vx == imm8`.
    SkipEqImm(Reg, u8),
    /// `SNE Vx imm8` (`0x4XNN`): skip the next instruction if `Vx != imm8`.
    SkipNeImm(Reg, u8),
    /// `SE Vx Vy` (`0x5XY0`): skip the next instruction if `Vx == Vy`.
    SkipEqReg(Reg, Reg),
    /// `LD Vx imm8` (`0x6XNN`): set `Vx` to `imm8`.
    SetImm(Reg, u8),
    /// `ADD Vx imm8` (`0x7XNN`): add `imm8` to `Vx`, without a flag.
    AddImm(Reg, u8),
    /// `LD Vx Vy` (`0x8XY0`): set `Vx` to `Vy`.
    SetReg(Reg, Reg),
    /// `OR Vx Vy` (`0x8XY1`).
    OrReg(Reg, Reg),
    /// `AND Vx Vy` (`0x8XY2`).
    AndReg(Reg, Reg),
    /// `XOR Vx Vy` (`0x8XY3`).
    XorReg(Reg, Reg),
    /// `ADD Vx Vy` (`0x8XY4`): add with the overflow flag in `VF`.
    AddReg(Reg, Reg),
    /// `SUB Vx Vy` (`0x8XY5`): `Vx -= Vy` with the no-borrow flag in `VF`.
    SubReg(Reg, Reg),
    /// `RSH Vx` (`0x8XY6`): shift right by one, lowest bit into `VF`.
    Rsh(Reg),
    /// `SUBN Vx Vy` (`0x8XY7`): `Vx = Vy - Vx` with the no-borrow flag in `VF`.
    SubFrom(Reg, Reg),
    /// `LSH Vx` (`0x8XYE`): shift left by one, highest bit into `VF`.
    Lsh(Reg),
    /// `SNE Vx Vy` (`0x9XY0`): skip the next instruction if `Vx != Vy`.
    SkipNeReg(Reg, Reg),
    /// `LD I imm12` (`0xANNN`): set the address register.
    SetMemPtr(u16),
    /// `JP V0 imm12` (`0xBNNN`): jump to `V0 + imm12`.
    JumpOffset(u16),
    /// `RND Vx imm8` (`0xCXNN`): set `Vx` to a random byte masked by `imm8`.
    Rand(Reg, u8),
    /// `DRW Vx Vy imm4` (`0xDXYN`): draw an N-row sprite at `(Vx, Vy)`.
    Draw(Reg, Reg, u8),
    /// `SKP Vx` (`0xEX9E`): skip the next instruction if key `Vx` is down.
    SkipKeyPressed(Reg),
    /// `SKNP Vx` (`0xEXA1`): skip the next instruction if key `Vx` is up.
    SkipKeyNotPressed(Reg),
    /// `LD Vx DT` (`0xFX07`): read the delay timer.
    GetDelay(Reg),
    /// `LD Vx K` (`0xFX0A`): wait for a key and store it in `Vx`.
    WaitForKey(Reg),
    /// `LD DT Vx` (`0xFX15`): set the delay timer.
    SetDelay(Reg),
    /// `LD ST Vx` (`0xFX18`): set the sound timer.
    SetSound(Reg),
    /// `ADD I Vx` (`0xFX1E`): add `Vx` to the address register.
    AddMemPtr(Reg),
    /// `LD F Vx` (`0xFX29`): point the address register at the glyph of `Vx`.
    SetChar(Reg),
    /// `LD B Vx` (`0xFX33`): store the decimal digits of `Vx` at `I..=I+2`.
    BCD(Reg),
    /// `LD [I] Vx` (`0xFX55`): store `V0..=Vx` in memory from `I` on.
    RegDump(Reg),
    /// `LD Vx [I]` (`0xFX65`): load `V0..=Vx` from memory from `I` on.
    RegLoad(Reg),
}

/// The register index in bits 8..12 of an opcode.
pub open spec fn field_x(opcode: u16) -> Reg {
    ((opcode / 0x100) % 0x10) as u8
}

/// The register index in bits 4..8 of an opcode.
pub open spec fn field_y(opcode: u16) -> Reg {
    ((opcode / 0x10) % 0x10) as u8
}

/// The 4-bit immediate in bits 0..4 of an opcode.
pub open spec fn field_n(opcode: u16) -> u8 {
    (opcode % 0x10) as u8
}

/// The 8-bit immediate in bits 0..8 of an opcode.
pub open spec fn field_nn(opcode: u16) -> u8 {
    (opcode % 0x100) as u8
}

/// The 12-bit address in bits 0..12 of an opcode.
pub open spec fn field_nnn(opcode: u16) -> Addr {
    opcode % 0x1000
}

/// An opcode's low 12 bits made of a register index and an 8-bit immediate.
pub open spec fn pack_xnn(x: Reg, nn: u8) -> int {
    x * 0x100 + nn
}

/// An opcode's low 12 bits made of two register indices.
pub open spec fn pack_xy(x: Reg, y: Reg) -> int {
    x * 0x100 + y * 0x10
}

fn get_x(opcode: u16) -> (x: Reg)
    ensures
        x == field_x(opcode),
        x < 16,
{
    let reg: u16 = (opcode & 0x0F00) >> 8;
    assert(((opcode & 0x0F00) >> 8) == (opcode / 0x100) % 0x10) by (bit_vector);
    reg as u8
}

fn get_y(opcode: u16) -> (y: Reg)
    ensures
        y == field_y(opcode),
        y < 16,
{
    let reg: u16 = (opcode & 0x00F0) >> 4;
    assert(((opcode & 0x00F0) >> 4) == (opcode / 0x10) % 0x10) by (bit_vector);
    reg as u8
}

fn get_n(opcode: u16) -> (n: u8)
    ensures
        n == field_n(opcode),
        n < 16,
{
    let imm: u16 = opcode & 0x000F;
    assert((opcode & 0x000F) == opcode % 0x10) by (bit_vector);
    imm as u8
}

fn get_nn(opcode: u16) -> (nn: u8)
    ensures
        nn == field_nn(opcode),
{
    let imm: u16 = opcode & 0x00FF;
    assert((opcode & 0x00FF) == opcode % 0x100) by (bit_vector);
    imm as u8
}

fn get_nnn(opcode: u16) -> (nnn: Addr)
    ensures
        nnn == field_nnn(opcode),
        nnn < 0x1000,
{
    let imm: u16 = opcode & 0x0FFF;
    assert((opcode & 0x0FFF) == opcode % 0x1000) by (bit_vector);
    imm
}

fn put_xnn(class: u16, x: Reg, nn: u8) -> (word: u16)
    ensures
        x < 16 && class % 0x1000 == 0 ==> word == class + pack_xnn(x, nn),
        word == class | ((x as u16) << 8 | nn as u16),
{
    let low: u16 = (x as u16) << 8 | nn as u16;
    let word: u16 = class | low;
    assert(x < 16 && class % 0x1000 == 0 ==> (class | ((x as u16) << 8 | nn as u16)) == class + (x
        * 0x100 + nn)) by (bit_vector);
    word
}

fn put_xy(class: u16, x: Reg, y: Reg, low: u16) -> (word: u16)
    ensures
        x < 16 && y < 16 && low < 16 && class % 0x1000 == 0 ==> word == class + pack_xy(x, y)
            + low,
        word == class | ((x as u16) << 8 | (y as u16) << 4) | low,
{
    let mid: u16 = (x as u16) << 8 | (y as u16) << 4;
    let word: u16 = class | mid | low;
    assert(x < 16 && y < 16 && low < 16 && class % 0x1000 == 0 ==> (class | ((x as u16) << 8 | (
    y as u16) << 4) | low) == class + (x * 0x100 + y * 0x10) + low) by (bit_vector);
    word
}

fn put_x(code: u16, x: Reg) -> (word: u16)
    ensures
        x < 16 && code % 0x1000 < 0x100 ==> word == code + x * 0x100,
        word == code | ((x as u16) << 8),
{
    let word: u16 = code | ((x as u16) << 8);
    assert(x < 16 && code % 0x1000 < 0x100 ==> (code | ((x as u16) << 8)) == code + x * 0x100)
        by (bit_vector);
    word
}

fn put_nnn(class: u16, nnn: Addr) -> (word: u16)
    ensures
        nnn < 0x1000 && class % 0x1000 == 0 ==> word == class + nnn,
        word == class | nnn,
{
    let word: u16 = class | nnn;
    assert(nnn < 0x1000 && class % 0x1000 == 0 ==> (class | nnn) == class + nnn) by (bit_vector);
    word
}

impl Instruction {
    /// Every operand fits the bit field that the encoding gives it: register
    /// indices and the sprite height in 4 bits, addresses in 12 bits.
    pub open spec fn wf(self) -> bool {
        match self {
            Instruction::ClearScreen | Instruction::Ret | Instruction::Nop => true,
            Instruction::Jump(a)
            | Instruction::Call(a)
            | Instruction::SetMemPtr(a)
            | Instruction::JumpOffset(a) => a < 0x1000,
            Instruction::SkipEqImm(x, _)
            | Instruction::SkipNeImm(x, _)
            | Instruction::SetImm(x, _)
            | Instruction::AddImm(x, _)
            | Instruction::Rand(x, _) => x < 16,
            Instruction::SkipEqReg(x, y)
            | Instruction::SetReg(x, y)
            | Instruction::OrReg(x, y)
            | Instruction::AndReg(x, y)
            | Instruction::XorReg(x, y)
            | Instruction::AddReg(x, y)
            | Instruction::SubReg(x, y)
            | Instruction::SubFrom(x, y)
            | Instruction::SkipNeReg(x, y) => x < 16 && y < 16,
            Instruction::Draw(x, y, n) => x < 16 && y < 16 && n < 16,
            Instruction::Rsh(x)
            | Instruction::Lsh(x)
            | Instruction::SkipKeyPressed(x)
            | Instruction::SkipKeyNotPressed(x)
            | Instruction::GetDelay(x)
            | Instruction::WaitForKey(x)
            | Instruction::SetDelay(x)
            | Instruction::SetSound(x)
            | Instruction::AddMemPtr(x)
            | Instruction::SetChar(x)
            | Instruction::BCD(x)
            | Instruction::RegDump(x)
            | Instruction::RegLoad(x) => x < 16,
        }
    }

    /// The opcode of a well-formed instruction, as a number.
    pub open spec fn opcode(self) -> int {
        match self {
            Instruction::Nop => 0x0000,
            Instruction::ClearScreen => 0x00E0,
            Instruction::Ret => 0x00EE,
            Instruction::Jump(a) => 0x1000 + a,
            Instruction::Call(a) => 0x2000 + a,
            Instruction::SkipEqImm(x, nn) => 0x3000 + pack_xnn(x, nn),
            Instruction::SkipNeImm(x, nn) => 0x4000 + pack_xnn(x, nn),
            Instruction::SkipEqReg(x, y) => 0x5000 + pack_xy(x, y),
            Instruction::SetImm(x, nn) => 0x6000 + pack_xnn(x, nn),
            Instruction::AddImm(x, nn) => 0x7000 + pack_xnn(x, nn),
            Instruction::SetReg(x, y) => 0x8000 + pack_xy(x, y),
            Instruction::OrReg(x, y) => 0x8001 + pack_xy(x, y),
            Instruction::AndReg(x, y) => 0x8002 + pack_xy(x, y),
            Instruction::XorReg(x, y) => 0x8003 + pack_xy(x, y),
            Instruction::AddReg(x, y) => 0x8004 + pack_xy(x, y),
            Instruction::SubReg(x, y) => 0x8005 + pack_xy(x, y),
            Instruction::Rsh(x) => 0x8006 + x * 0x100,
            Instruction::SubFrom(x, y) => 0x8007 + pack_xy(x, y),
            Instruction::Lsh(x) => 0x800E + x * 0x100,
            Instruction::SkipNeReg(x, y) => 0x9000 + pack_xy(x, y),
            Instruction::SetMemPtr(a) => 0xA000 + a,
            Instruction::JumpOffset(a) => 0xB000 + a,
            Instruction::Rand(x, nn) => 0xC000 + pack_xnn(x, nn),
            Instruction::Draw(x, y, n) => 0xD000 + pack_xy(x, y) + n,
            Instruction::SkipKeyPressed(x) => 0xE09E + x * 0x100,
            Instruction::SkipKeyNotPressed(x) => 0xE0A1 + x * 0x100,
            Instruction::GetDelay(x) => 0xF007 + x * 0x100,
            Instruction::WaitForKey(x) => 0xF00A + x * 0x100,
            Instruction::SetDelay(x) => 0xF015 + x * 0x100,
            Instruction::SetSound(x) => 0xF018 + x * 0x100,
            Instruction::AddMemPtr(x) => 0xF01E + x * 0x100,
            Instruction::SetChar(x) => 0xF029 + x * 0x100,
            Instruction::BCD(x) => 0xF033 + x * 0x100,
            Instruction::RegDump(x) => 0xF055 + x * 0x100,
            Instruction::RegLoad(x) => 0xF065 + x * 0x100,
        }
    }

    /// The word that `encode` gives for any instruction: the class bits
    /// combined with the operands by bitwise or. For a well-formed
    /// instruction this is `opcode()`; an operand that is too wide spills
    /// into the neighbouring fields.
    pub open spec fn encode_spec(self) -> u16 {
        match self {
            Instruction::Nop => 0x0000,
            Instruction::ClearScreen => 0x00E0,
            Instruction::Ret => 0x00EE,
            Instruction::Jump(a) => 0x1000 | a,
            Instruction::Call(a) => 0x2000 | a,
            Instruction::SkipEqImm(x, nn) => 0x3000 | ((x as u16) << 8 | nn as u16),
            Instruction::SkipNeImm(x, nn) => 0x4000 | ((x as u16) << 8 | nn as u16),
            Instruction::SkipEqReg(x, y) => 0x5000 | ((x as u16) << 8 | (y as u16) << 4) | 0,
            Instruction::SetImm(x, nn) => 0x6000 | ((x as u16) << 8 | nn as u16),
            Instruction::AddImm(x, nn) => 0x7000 | ((x as u16) << 8 | nn as u16),
            Instruction::SetReg(x, y) => 0x8000 | ((x as u16) << 8 | (y as u16) << 4) | 0,
            Instruction::OrReg(x, y) => 0x8000 | ((x as u16) << 8 | (y as u16) << 4) | 1,
            Instruction::AndReg(x, y) => 0x8000 | ((x as u16) << 8 | (y as u16) << 4) | 2,
            Instruction::XorReg(x, y) => 0x8000 | ((x as u16) << 8 | (y as u16) << 4) | 3,
            Instruction::AddReg(x, y) => 0x8000 | ((x as u16) << 8 | (y as u16) << 4) | 4,
            Instruction::SubReg(x, y) => 0x8000 | ((x as u16) << 8 | (y as u16) << 4) | 5,
            Instruction::Rsh(x) => 0x8006 | ((x as u16) << 8),
            Instruction::SubFrom(x, y) => 0x8000 | ((x as u16) << 8 | (y as u16) << 4) | 7,
            Instruction::Lsh(x) => 0x800E | ((x as u16) << 8),
            Instruction::SkipNeReg(x, y) => 0x9000 | ((x as u16) << 8 | (y as u16) << 4) | 0,
            Instruction::SetMemPtr(a) => 0xA000 | a,
            Instruction::JumpOffset(a) => 0xB000 | a,
            Instruction::Rand(x, nn) => 0xC000 | ((x as u16) << 8 | nn as u16),
            Instruction::Draw(x, y, n) => 0xD000 | ((x as u16) << 8 | (y as u16) << 4) | n as u16,
            Instruction::SkipKeyPressed(x) => 0xE09E | ((x as u16) << 8),
            Instruction::SkipKeyNotPressed(x) => 0xE0A1 | ((x as u16) << 8),
            Instruction::GetDelay(x) => 0xF007 | ((x as u16) << 8),
            Instruction::WaitForKey(x) => 0xF00A | ((x as u16) << 8),
            Instruction::SetDelay(x) => 0xF015 | ((x as u16) << 8),
            Instruction::SetSound(x) => 0xF018 | ((x as u16) << 8),
            Instruction::AddMemPtr(x) => 0xF01E | ((x as u16) << 8),
            Instruction::SetChar(x) => 0xF029 | ((x as u16) << 8),
            Instruction::BCD(x) => 0xF033 | ((x as u16) << 8),
            Instruction::RegDump(x) => 0xF055 | ((x as u16) << 8),
            Instruction::RegLoad(x) => 0xF065 | ((x as u16) << 8),
        }
    }

    /// The instruction that a 16-bit word stands for. Every word that is not
    /// the opcode of an instruction stands for `Nop`.
    pub open spec fn decode_spec(opcode: u16) -> Instruction {
        let x = field_x(opcode);
        let y = field_y(opcode);
        let n = field_n(opcode);
        let nn = field_nn(opcode);
        let nnn = field_nnn(opcode);
        let class = opcode / 0x1000;
        if opcode == 0x00E0 {
            Instruction::ClearScreen
        } else if opcode == 0x00EE {
            Instruction::Ret
        } else if class == 0x1 {
            Instruction::Jump(nnn)
        } else if class == 0x2 {
            Instruction::Call(nnn)
        } else if class == 0x3 {
            Instruction::SkipEqImm(x, nn)
        } else if class == 0x4 {
            Instruction::SkipNeImm(x, nn)
        } else if class == 0x5 {
            if n == 0x0 {
                Instruction::SkipEqReg(x, y)
            } else {
                Instruction::Nop
            }
        } else if class == 0x6 {
            Instruction::SetImm(x, nn)
        } else if class == 0x7 {
            Instruction::AddImm(x, nn)
        } else if class == 0x8 {
            if n == 0x0 {
                Instruction::SetReg(x, y)
            } else if n == 0x1 {
                Instruction::OrReg(x, y)
            } else if n == 0x2 {
                Instruction::AndReg(x, y)
            } else if n == 0x3 {
                Instruction::XorReg(x, y)
            } else if n == 0x4 {
                Instruction::AddReg(x, y)
            } else if n == 0x5 {
                Instruction::SubReg(x, y)
            } else if n == 0x6 {
                Instruction::Rsh(x)
            } else if n == 0x7 {
                Instruction::SubFrom(x, y)
            } else if n == 0xE {
                Instruction::Lsh(x)
            } else {
                Instruction::Nop
            }
        } else if class == 0x9 {
            if n == 0x0 {
                Instruction::SkipNeReg(x, y)
            } else {
                Instruction::Nop
            }
        } else if class == 0xA {
            Instruction::SetMemPtr(nnn)
        } else if class == 0xB {
            Instruction::JumpOffset(nnn)
        } else if class == 0xC {
            Instruction::Rand(x, nn)
        } else if class == 0xD {
            Instruction::Draw(x, y, n)
        } else if class == 0xE {
            if nn == 0x9E {
                Instruction::SkipKeyPressed(x)
            } else if nn == 0xA1 {
                Instruction::SkipKeyNotPressed(x)
            } else {
                Instruction::Nop
            }
        } else if class == 0xF {
            if nn == 0x07 {
                Instruction::GetDelay(x)
            } else if nn == 0x0A {
                Instruction::WaitForKey(x)
            } else if nn == 0x15 {
                Instruction::SetDelay(x)
            } else if nn == 0x18 {
                Instruction::SetSound(x)
            } else if nn == 0x1E {
                Instruction::AddMemPtr(x)
            } else if nn == 0x29 {
                Instruction::SetChar(x)
            } else if nn == 0x33 {
                Instruction::BCD(x)
            } else if nn == 0x55 {
                Instruction::RegDump(x)
            } else if nn == 0x65 {
                Instruction::RegLoad(x)
            } else {
                Instruction::Nop
            }
        } else {
            Instruction::Nop
        }
    }

    /// Packs an instruction into its 16-bit word.
    pub fn encode(self) -> (word: u16)
        ensures
            word == self.encode_spec(),
            self.wf() ==> word == self.opcode(),
    {
        match self {
            Instruction::Nop => 0x0000,
            Instruction::ClearScreen => 0x00E0,
            Instruction::Ret => 0x00EE,
            Instruction::Jump(a) => put_nnn(0x1000, a),
            Instruction::Call(a) => put_nnn(0x2000, a),
            Instruction::SkipEqImm(x, nn) => put_xnn(0x3000, x, nn),
            Instruction::SkipNeImm(x, nn) => put_xnn(0x4000, x, nn),
            Instruction::SkipEqReg(x, y) => put_xy(0x5000, x, y, 0),
            Instruction::SetImm(x, nn) => put_xnn(0x6000, x, nn),
            Instruction::AddImm(x, nn) => put_xnn(0x7000, x, nn),
            Instruction::SetReg(x, y) => put_xy(0x8000, x, y, 0),
            Instruction::OrReg(x, y) => put_xy(0x8000, x, y, 1),
            Instruction::AndReg(x, y) => put_xy(0x8000, x, y, 2),
            Instruction::XorReg(x, y) => put_xy(0x8000, x, y, 3),
            Instruction::AddReg(x, y) => put_xy(0x8000, x, y, 4),
            Instruction::SubReg(x, y) => put_xy(0x8000, x, y, 5),
            Instruction::Rsh(x) => put_x(0x8006, x),
            Instruction::SubFrom(x, y) => put_xy(0x8000, x, y, 7),
            Instruction::Lsh(x) => put_x(0x800E, x),
            Instruction::SkipNeReg(x, y) => put_xy(0x9000, x, y, 0),
            Instruction::SetMemPtr(a) => put_nnn(0xA000, a),
            Instruction::JumpOffset(a) => put_nnn(0xB000, a),
            Instruction::Rand(x, nn) => put_xnn(0xC000, x, nn),
            Instruction::Draw(x, y, n) => put_xy(0xD000, x, y, n as u16),
            Instruction::SkipKeyPressed(x) => put_x(0xE09E, x),
            Instruction::SkipKeyNotPressed(x) => put_x(0xE0A1, x),
            Instruction::GetDelay(x) => put_x(0xF007, x),
            Instruction::WaitForKey(x) => put_x(0xF00A, x),
            Instruction::SetDelay(x) => put_x(0xF015, x),
            Instruction::SetSound(x) => put_x(0xF018, x),
            Instruction::AddMemPtr(x) => put_x(0xF01E, x),
            Instruction::SetChar(x) => put_x(0xF029, x),
            Instruction::BCD(x) => put_x(0xF033, x),
            Instruction::RegDump(x) => put_x(0xF055, x),
            Instruction::RegLoad(x) => put_x(0xF065, x),
        }
    }

    /// Reads an instruction from its 16-bit word. Never fails: a word that
    /// matches no instruction is a `Nop`.
    pub fn decode(opcode: u16) -> (instruction: Instruction)
        ensures
            instruction == Self::decode_spec(opcode),
            instruction.wf(),
    {
        match opcode {
            0x00E0 => Self::ClearScreen,
            0x00EE => Self::Ret,
            0x1000..=0x1fff => Self::Jump(get_nnn(opcode)),
            0x2000..=0x2fff => Self::Call(get_nnn(opcode)),
            0x3000..=0x3fff => Self::SkipEqImm(get_x(opcode), get_nn(opcode)),
            0x4000..=0x4fff => Self::SkipNeImm(get_x(opcode), get_nn(opcode)),
            0x5000..=0x5fff => match get_n(opcode) {
                0x0 => Self::SkipEqReg(get_x(opcode), get_y(opcode)),
                _ => Self::Nop,
            },
            0x6000..=0x6fff => Self::SetImm(get_x(opcode), get_nn(opcode)),
            0x7000..=0x7fff => Self::AddImm(get_x(opcode), get_nn(opcode)),
            0x8000..=0x8fff => match get_n(opcode) {
                0x0 => Self::SetReg(get_x(opcode), get_y(opcode)),
                0x1 => Self::OrReg(get_x(opcode), get_y(opcode)),
                0x2 => Self::AndReg(get_x(opcode), get_y(opcode)),
                0x3 => Self::XorReg(get_x(opcode), get_y(opcode)),
                0x4 => Self::AddReg(get_x(opcode), get_y(opcode)),
                0x5 => Self::SubReg(get_x(opcode), get_y(opcode)),
                0x6 => Self::Rsh(get_x(opcode)),
                0x7 => Self::SubFrom(get_x(opcode), get_y(opcode)),
                0xE => Self::Lsh(get_x(opcode)),
                _ => Self::Nop,
            },
            0x9000..=0x9fff => match get_n(opcode) {
                0x0 => Self::SkipNeReg(get_x(opcode), get_y(opcode)),
                _ => Self::Nop,
            },
            0xA000..=0xAfff => Self::SetMemPtr(get_nnn(opcode)),
            0xB000..=0xBfff => Self::JumpOffset(get_nnn(opcode)),
            0xC000..=0xCfff => Self::Rand(get_x(opcode), get_nn(opcode)),
            0xD000..=0xDfff => Self::Draw(get_x(opcode), get_y(opcode), get_n(opcode)),
            0xE000..=0xEfff => match get_nn(opcode) {
                0x9E => Self::SkipKeyPressed(get_x(opcode)),
                0xA1 => Self::SkipKeyNotPressed(get_x(opcode)),
                _ => Self::Nop,
            },
            0xF000..=0xFfff => match get_nn(opcode) {
                0x07 => Self::GetDelay(get_x(opcode)),
                0x0A => Self::WaitForKey(get_x(opcode)),
                0x15 => Self::SetDelay(get_x(opcode)),
                0x18 => Self::SetSound(get_x(opcode)),
                0x1E => Self::AddMemPtr(get_x(opcode)),
                0x29 => Self::SetChar(get_x(opcode)),
                0x33 => Self::BCD(get_x(opcode)),
                0x55 => Self::RegDump(get_x(opcode)),
                0x65 => Self::RegLoad(get_x(opcode)),
                _ => Self::Nop,
            },
            _ => Self::Nop,
        }
    }
}

impl From<u16> for Instruction {
    fn from(opcode: u16) -> (instruction: Instruction) {
        Instruction::decode(opcode)
    }
}

impl vstd::std_specs::convert::FromSpecImpl<u16> for Instruction {
    open spec fn obeys_from_spec() -> bool {
        true
    }

    open spec fn from_spec(opcode: u16) -> Instruction {
        Instruction::decode_spec(opcode)
    }
}

impl From<Instruction> for u16 {
    fn from(instruction: Instruction) -> (word: u16) {
        instruction.encode()
    }
}

impl vstd::std_specs::convert::FromSpecImpl<Instruction> for u16 {
    open spec fn obeys_from_spec() -> bool {
        true
    }

    open spec fn from_spec(instruction: Instruction) -> u16 {
        instruction.encode_spec()
    }
}

/// A register skip is decoded from one word only, its opcode: no word with
/// a low nibble other than zero is a register skip.
pub proof fn lemma_skip_has_one_word(word: u16)
    requires
        Instruction::decode_spec(word) is SkipEqReg || Instruction::decode_spec(word) is SkipNeReg,
    ensures
        Instruction::decode_spec(word).opcode() == word,
{
}

/// Decoding is the inverse of encoding: a well-formed instruction is read
/// back unchanged from the word it encodes to.
pub proof fn lemma_decode_encode(instruction: Instruction)
    requires
        instruction.wf(),
    ensures
        instruction.encode_spec() == instruction.opcode(),
        Instruction::decode_spec(instruction.encode_spec()) == instruction,
{
    lemma_encode_is_opcode(instruction);
    lemma_decode_opcode(instruction);
}

/// On a well-formed instruction the bitwise packing adds up to the opcode.
pub proof fn lemma_encode_is_opcode(instruction: Instruction)
    requires
        instruction.wf(),
    ensures
        instruction.encode_spec() == instruction.opcode(),
{
    assert forall|class: u16, a: u16| a < 0x1000 && class % 0x1000 == 0 implies #[trigger] (class
        | a) == class + a by {
        assert(a < 0x1000 && class % 0x1000 == 0 ==> (class | a) == class + a) by (bit_vector);
    }
    assert forall|class: u16, x: u8, nn: u8| x < 16 && class % 0x1000 == 0 implies #[trigger] (
    class | ((x as u16) << 8 | nn as u16)) == class + (x * 0x100 + nn) by {
        assert(x < 16 && class % 0x1000 == 0 ==> (class | ((x as u16) << 8 | nn as u16)) == class
            + (x * 0x100 + nn)) by (bit_vector);
    }
    assert forall|class: u16, x: u8, y: u8, low: u16|
        x < 16 && y < 16 && low < 16 && class % 0x1000 == 0 implies #[trigger] (class | ((x as u16)
        << 8 | (y as u16) << 4) | low) == class + (x * 0x100 + y * 0x10) + low by {
        assert(x < 16 && y < 16 && low < 16 && class % 0x1000 == 0 ==> (class | ((x as u16) << 8
            | (y as u16) << 4) | low) == class + (x * 0x100 + y * 0x10) + low) by (bit_vector);
    }
    assert forall|code: u16, x: u8| x < 16 && code % 0x1000 < 0x100 implies #[trigger] (code | ((
    x as u16) << 8)) == code + x * 0x100 by {
        assert(x < 16 && code % 0x1000 < 0x100 ==> (code | ((x as u16) << 8)) == code + x * 0x100)
            by (bit_vector);
    }
}

/// The fields of a word that is written out as four nibbles.
proof fn lemma_word_fields(word: u16, class: int, x: int, y: int, n: int)
    requires
        0 <= class < 16,
        0 <= x < 16,
        0 <= y < 16,
        0 <= n < 16,
        word == class * 0x1000 + x * 0x100 + y * 0x10 + n,
    ensures
        word / 0x1000 == class,
        field_x(word) == x,
        field_y(word) == y,
        field_n(word) == n,
        field_nn(word) == y * 0x10 + n,
        field_nnn(word) == x * 0x100 + y * 0x10 + n,
{
    let w = word as int;
    lemma_fundamental_div_mod_converse(w, 0x1000, class, x * 0x100 + y * 0x10 + n);
    lemma_fundamental_div_mod_converse(w, 0x100, class * 0x10 + x, y * 0x10 + n);
    lemma_fundamental_div_mod_converse(w, 0x10, class * 0x100 + x * 0x10 + y, n);
    lemma_fundamental_div_mod_converse(class * 0x10 + x, 0x10, class, x);
    lemma_fundamental_div_mod_converse(class * 0x100 + x * 0x10 + y, 0x10, class * 0x10 + x, y);
}

/// The nibbles of an opcode whose low 12 bits are an address.
proof fn lemma_fields_nnn(class: int, a: u16)
    requires
        0 <= class < 16,
        a < 0x1000,
    ensures
        ({
            let word = (class * 0x1000 + a) as u16;
            &&& word == class * 0x1000 + a
            &&& word / 0x1000 == class
            &&& field_nnn(word) == a
        }),
{
    let word = (class * 0x1000 + a) as u16;
    lemma_word_fields(word, class, a as int / 0x100, (a as int / 0x10) % 0x10, a as int % 0x10);
}

/// The nibbles of an opcode made of a register index and an 8-bit immediate.
proof fn lemma_fields_xnn(class: int, x: u8, nn: u8)
    requires
        0 <= class < 16,
        x < 16,
    ensures
        ({
            let word = (class * 0x1000 + pack_xnn(x, nn)) as u16;
            &&& word == class * 0x1000 + pack_xnn(x, nn)
            &&& word / 0x1000 == class
            &&& field_x(word) == x
            &&& field_nn(word) == nn
        }),
{
    let word = (class * 0x1000 + pack_xnn(x, nn)) as u16;
    lemma_word_fields(word, class, x as int, nn as int / 0x10, nn as int % 0x10);
}

/// The nibbles of an opcode made of two register indices and a low nibble.
proof fn lemma_fields_xyn(class: int, x: u8, y: u8, n: int)
    requires
        0 <= class < 16,
        x < 16,
        y < 16,
        0 <= n < 16,
    ensures
        ({
            let word = (class * 0x1000 + pack_xy(x, y) + n) as u16;
            &&& word == class * 0x1000 + pack_xy(x, y) + n
            &&& word / 0x1000 == class
            &&& field_x(word) == x
            &&& field_y(word) == y
            &&& field_n(word) == n
        }),
{
    let word = (class * 0x1000 + pack_xy(x, y) + n) as u16;
    lemma_word_fields(word, class, x as int, y as int, n);
}

/// The nibbles of an opcode made of a register index and a fixed low byte.
proof fn lemma_fields_x(class: int, x: u8, low: int)
    requires
        0 <= class < 16,
        x < 16,
        0 <= low < 0x100,
    ensures
        ({
            let word = (class * 0x1000 + x * 0x100 + low) as u16;
            &&& word == class * 0x1000 + x * 0x100 + low
            &&& word / 0x1000 == class
            &&& field_x(word) == x
            &&& field_nn(word) == low
            &&& field_n(word) == low % 0x10
        }),
{
    let word = (class * 0x1000 + x * 0x100 + low) as u16;
    lemma_word_fields(word, class, x as int, low / 0x10, low % 0x10);
}

/// Every well-formed instruction is what its opcode decodes to.
pub proof fn lemma_decode_opcode(instruction: Instruction)
    requires
        instruction.wf(),
    ensures
        Instruction::decode_spec(instruction.opcode() as u16) == instruction,
{
    match instruction {
        Instruction::Nop | Instruction::ClearScreen | Instruction::Ret => {},
        Instruction::Jump(a) => lemma_fields_nnn(0x1, a),
        Instruction::Call(a) => lemma_fields_nnn(0x2, a),
        Instruction::SetMemPtr(a) => lemma_fields_nnn(0xA, a),
        Instruction::JumpOffset(a) => lemma_fields_nnn(0xB, a),
        Instruction::SkipEqImm(x, nn) => lemma_fields_xnn(0x3, x, nn),
        Instruction::SkipNeImm(x, nn) => lemma_fields_xnn(0x4, x, nn),
        Instruction::SetImm(x, nn) => lemma_fields_xnn(0x6, x, nn),
        Instruction::AddImm(x, nn) => lemma_fields_xnn(0x7, x, nn),
        Instruction::Rand(x, nn) => lemma_fields_xnn(0xC, x, nn),
        Instruction::SkipEqReg(x, y) => lemma_fields_xyn(0x5, x, y, 0),
        Instruction::SkipNeReg(x, y) => lemma_fields_xyn(0x9, x, y, 0),
        Instruction::SetReg(x, y) => lemma_fields_xyn(0x8, x, y, 0),
        Instruction::OrReg(x, y) => lemma_fields_xyn(0x8, x, y, 1),
        Instruction::AndReg(x, y) => lemma_fields_xyn(0x8, x, y, 2),
        Instruction::XorReg(x, y) => lemma_fields_xyn(0x8, x, y, 3),
        Instruction::AddReg(x, y) => lemma_fields_xyn(0x8, x, y, 4),
        Instruction::SubReg(x, y) => lemma_fields_xyn(0x8, x, y, 5),
        Instruction::SubFrom(x, y) => lemma_fields_xyn(0x8, x, y, 7),
        Instruction::Draw(x, y, n) => lemma_fields_xyn(0xD, x, y, n as int),
        Instruction::Rsh(x) => lemma_fields_x(0x8, x, 0x06),
        Instruction::Lsh(x) => lemma_fields_x(0x8, x, 0x0E),
        Instruction::SkipKeyPressed(x) => lemma_fields_x(0xE, x, 0x9E),
        Instruction::SkipKeyNotPressed(x) => lemma_fields_x(0xE, x, 0xA1),
        Instruction::GetDelay(x) => lemma_fields_x(0xF, x, 0x07),
        Instruction::WaitForKey(x) => lemma_fields_x(0xF, x, 0x0A),
        Instruction::SetDelay(x) => lemma_fields_x(0xF, x, 0x15),
        Instruction::SetSound(x) => lemma_fields_x(0xF, x, 0x18),
        Instruction::AddMemPtr(x) => lemma_fields_x(0xF, x, 0x1E),
        Instruction::SetChar(x) => lemma_fields_x(0xF, x, 0x29),
        Instruction::BCD(x) => lemma_fields_x(0xF, x, 0x33),
        Instruction::RegDump(x) => lemma_fields_x(0xF, x, 0x55),
        Instruction::RegLoad(x) => lemma_fields_x(0xF, x, 0x65),
    }
}

} // verus!
