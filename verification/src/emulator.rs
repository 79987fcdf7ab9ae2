//! The machine state and the execution engine.
//!
//! The call stack is a growable list of return addresses that lives outside
//! the addressable memory, so a deep call chain never overwrites memory.

use crate::display::{blank_pixels, screen_shaped, Display, DISPLAY_COLUMNS, DISPLAY_ROWS};
use crate::instructions::Instruction;
use crate::machine::{
    add_spec, bit_of, draw_collides, draw_pixels, execute, fetch, initial_machine, initial_ram,
    key_pressed, lemma_draw_next_row, lemma_draw_nothing, lemma_draw_row, row_collides,
    row_pixels, sprite_at, step, sub_spec, ticked, Fault, Machine,
};
use crate::random::random_byte;
use vstd::prelude::*;

verus! {

/// The number of bytes of addressable memory.
pub const MEMORY_SIZE: usize = 4096;

/// The address at which a program is loaded and starts.
pub const PROGRAM_START: usize = 0x200;

/// The size of one instruction in memory, in bytes.
pub const INSTRUCTION_SIZE: usize = 2;

/// The number of bytes in the sprite of one hexadecimal glyph.
pub const SPRITE_LEN: usize = 5;

/// The sprites of the sixteen hexadecimal glyphs, five rows each.
pub const CHAR_SPRITES: [u8; 80] = [
    0xF0, 0x90, 0x90, 0x90, 0xF0,
    0x20, 0x60, 0x20, 0x20, 0x70,
    0xF0, 0x10, 0xF0, 0x80, 0xF0,
    0xF0, 0x10, 0xF0, 0x10, 0xF0,
    0x90, 0x90, 0xF0, 0x10, 0x10,
    0xF0, 0x80, 0xF0, 0x10, 0xF0,
    0xF0, 0x80, 0xF0, 0x90, 0xF0,
    0xF0, 0x10, 0x20, 0x40, 0x40,
    0xF0, 0x90, 0xF0, 0x90, 0xF0,
    0xF0, 0x90, 0xF0, 0x10, 0xF0,
    0xF0, 0x90, 0xF0, 0x90, 0x90,
    0xE0, 0x90, 0xE0, 0x90, 0xE0,
    0xF0, 0x80, 0x80, 0x80, 0xF0,
    0xE0, 0x90, 0x90, 0x90, 0xE0,
    0xF0, 0x80, 0xF0, 0x80, 0xF0,
    0xF0, 0x80, 0xF0, 0x80, 0x80,
];

/// Whether the pixel in column `index` of a sprite row is lit. Column 0 is
/// the most significant bit.
pub fn get_bit(row: u8, index: usize) -> (on: bool)
    requires
        index < 8,
    ensures
        on == bit_of(row, index as int),
{
    let shift: u8 = 7 - index as u8;
    let mask: u8 = 1u8 << shift;
    let masked: u8 = row & mask;
    let column: u8 = index as u8;
    assert(column < 8 ==> (((row & (1u8 << ((7 - column) as u8))) >> ((7 - column) as u8)) == 1)
        == (row & (0x80u8 >> column) != 0)) by (bit_vector);
    (masked >> shift) == 1
}

/// The sum of two bytes modulo 256, and whether the true sum was over 255.
pub fn add_with_overflow(a: u8, b: u8) -> (result: (u8, bool))
    ensures
        result == add_spec(a, b),
        result.0 == (a + b) % 256,
        result.1 == (a + b > 255),
{
    let larger = if a > b { a } else { b };
    let smaller = if larger == a { b } else { a };
    if let Some(v) = larger.checked_add(smaller) {
        (v, false)
    } else {
        (smaller - (u8::MAX - larger) - 1, true)
    }
}

/// The difference `a - b` modulo 256, and whether nothing was borrowed,
/// that is whether `a >= b`.
pub fn subtract_with_underflow(a: u8, b: u8) -> (result: (u8, bool))
    ensures
        result == sub_spec(a, b),
        result.0 == (a - b) % 256,
        result.1 == (a >= b),
{
    if b > a {
        (u8::MAX - b + a + 1, false)
    } else {
        (a - b, true)
    }
}

/// The addressable memory, the screen, the keypad and the call stack.
pub struct Memory {
    pub ram: [u8; 4096],
    pub display: Display,
    pub keys: [bool; 16],
    pub stack: Vec<usize>,
}

/// The register file.
pub struct Registers {
    /// The general purpose registers `V0..=VF`; `VF` doubles as the flag.
    pub vn: [u8; 16],
    /// The delay timer.
    pub delay: u8,
    /// The sound timer; the buzzer sounds while it is not zero.
    pub sound: u8,
    /// The program counter.
    pub pc: usize,
    /// The address register `I`.
    pub i: u16,
    /// The register that waits for a key, while the machine is blocked.
    pub key_flag: Option<usize>,
}

/// The machine that a memory and a register file make up.
pub open spec fn machine(memory: &Memory, registers: &Registers) -> Machine {
    Machine {
        ram: memory.ram@,
        display: memory.display@,
        keys: memory.keys@,
        stack: memory.stack@,
        vn: registers.vn@,
        delay: registers.delay,
        sound: registers.sound,
        pc: registers.pc,
        i: registers.i,
        key_flag: registers.key_flag,
    }
}

impl Default for Memory {
    /// Memory that holds the glyph sprites and zeroes, a blank screen, no key
    /// down and an empty call stack.
    fn default() -> (memory: Memory)
        ensures
            memory.wf(),
            memory.ram@ == initial_ram(),
            memory.display@ == blank_pixels(),
            memory.keys@ == Seq::new(16, |k: int| false),
            memory.stack@ == Seq::<usize>::empty(),
    {
        let mut ram = [0u8; 4096];
        let mut k: usize = 0;
        while k < 80
            invariant
                k <= 80,
                forall|j: int| 0 <= j < k ==> ram@[j] == CHAR_SPRITES@[j],
                forall|j: int| k <= j < 4096 ==> ram@[j] == 0,
            decreases 80 - k,
        {
            ram[k] = CHAR_SPRITES[k];
            k += 1;
        }
        let memory = Memory { ram, display: Display::new(), keys: [false; 16], stack: Vec::new() };
        assert(memory.ram@ =~= initial_ram());
        assert(memory.keys@ =~= Seq::new(16, |k: int| false));
        memory
    }
}

impl Memory {
    /// The screen has its shape and every return address lies in memory.
    pub open spec fn wf(&self) -> bool {
        &&& self.display.wf()
        &&& forall|k: int| 0 <= k < self.stack@.len() ==> #[trigger] self.stack@[k] < MEMORY_SIZE
    }

    /// Copies a program into memory from `PROGRAM_START` on. The program
    /// must fit between that address and the end of memory.
    pub fn load_rom(&mut self, rom: &[u8])
        requires
            rom@.len() <= MEMORY_SIZE - PROGRAM_START,
        ensures
            final(self).ram@ == Seq::new(
                MEMORY_SIZE as nat,
                |a: int|
                    if PROGRAM_START <= a < PROGRAM_START + rom@.len() {
                        rom@[a - PROGRAM_START]
                    } else {
                        old(self).ram@[a]
                    },
            ),
            final(self).display == old(self).display,
            final(self).keys == old(self).keys,
            final(self).stack == old(self).stack,
    {
        let mut k: usize = 0;
        while k < rom.len()
            invariant
                k <= rom@.len() <= MEMORY_SIZE - PROGRAM_START,
                self.display == old(self).display,
                self.keys == old(self).keys,
                self.stack == old(self).stack,
                forall|a: int|
                    0 <= a < MEMORY_SIZE ==> self.ram@[a] == if PROGRAM_START <= a < PROGRAM_START
                        + k {
                        rom@[a - PROGRAM_START]
                    } else {
                        old(self).ram@[a]
                    },
            decreases rom@.len() - k,
        {
            self.ram[PROGRAM_START + k] = rom[k];
            k += 1;
        }
        assert(self.ram@ =~= Seq::new(
            MEMORY_SIZE as nat,
            |a: int|
                if PROGRAM_START <= a < PROGRAM_START + rom@.len() {
                    rom@[a - PROGRAM_START]
                } else {
                    old(self).ram@[a]
                },
        ));
    }

    /// Xors a row of 8 pixels that starts at `(x, y)` with the pattern in
    /// `byte`; columns wrap at the right edge and the row wraps at the
    /// bottom. Returns whether a pixel went from on to off.
    pub fn set_row(&mut self, x: usize, y: usize, byte: u8) -> (collided: bool)
        requires
            old(self).display.wf(),
            x <= usize::MAX - 8,
        ensures
            final(self).display.wf(),
            final(self).display@ == row_pixels(old(self).display@, x as int, y as int, byte, 8),
            collided == row_collides(old(self).display@, x as int, y as int, byte, 8),
            final(self).ram == old(self).ram,
            final(self).keys == old(self).keys,
            final(self).stack == old(self).stack,
    {
        let mut collided = false;
        let ghost before = self.display@;
        assert(self.display@ =~~= row_pixels(before, x as int, y as int, byte, 0));
        let mut i: usize = 0;
        while i < 8
            invariant
                i <= 8,
                x <= usize::MAX - 8,
                screen_shaped(before),
                self.display.wf(),
                self.display@ == row_pixels(before, x as int, y as int, byte, i as int),
                collided == row_collides(before, x as int, y as int, byte, i as int),
                self.ram == old(self).ram,
                self.keys == old(self).keys,
                self.stack == old(self).stack,
            decreases 8 - i,
        {
            let x_wrapped = (x + i) % DISPLAY_COLUMNS;
            let y_wrapped = y % DISPLAY_ROWS;
            let prev = self.display.get(x_wrapped, y_wrapped);
            let new = get_bit(byte, i);
            proof {
                lemma_draw_row(before, x as int, y as int, byte, i as int);
            }
            self.display.set(x_wrapped, y_wrapped, prev != new);
            collided = collided || (prev && new);
            i += 1;
        }
        collided
    }
}

impl Default for Registers {
    /// Registers at zero, the program counter at `PROGRAM_START`.
    fn default() -> (registers: Registers)
        ensures
            registers.wf(),
            registers.vn@ == Seq::new(16, |k: int| 0u8),
            registers.delay == 0,
            registers.sound == 0,
            registers.pc == PROGRAM_START,
            registers.i == 0,
            registers.key_flag is None,
    {
        let registers = Registers {
            vn: [0u8; 16],
            delay: 0,
            sound: 0,
            pc: PROGRAM_START,
            i: 0,
            key_flag: None,
        };
        assert(registers.vn@ =~= Seq::new(16, |k: int| 0u8));
        registers
    }
}

impl Registers {
    /// A register that waits for a key is one of the sixteen.
    pub open spec fn wf(&self) -> bool {
        self.key_flag matches Some(dest) ==> dest < 16
    }
}

/// The instruction at the program counter, which must point at two bytes
/// of memory.
pub fn get_instruction(memory: &Memory, registers: &Registers) -> (instruction: Instruction)
    requires
        registers.pc + 1 < MEMORY_SIZE,
    ensures
        instruction == fetch(machine(memory, registers)),
        instruction.wf(),
{
    let upper = memory.ram[registers.pc];
    let lower = memory.ram[registers.pc + 1];
    assert(((upper as u16) << 8) | (lower as u16) == upper * 0x100 + lower) by (bit_vector);
    Instruction::decode(((upper as u16) << 8) | (lower as u16))
}

/// Xors the `n` sprite rows that start at address `start` onto the screen
/// at `(x, y)`, one below the other. Returns whether a pixel went from on to
/// off.
fn draw_sprite(memory: &mut Memory, x: u8, y: u8, start: u16, n: u8) -> (collided: bool)
    requires
        old(memory).wf(),
        n < 16,
        start + n <= MEMORY_SIZE,
    ensures
        final(memory).wf(),
        final(memory).display@ == draw_pixels(
            old(memory).display@,
            x as int,
            y as int,
            sprite_at(old(memory).ram@, start as int, n as int),
        ),
        collided == draw_collides(
            old(memory).display@,
            x as int,
            y as int,
            sprite_at(old(memory).ram@, start as int, n as int),
        ),
        final(memory).ram == old(memory).ram,
        final(memory).keys == old(memory).keys,
        final(memory).stack == old(memory).stack,
{
    let ghost before = memory.display@;
    let ghost sprite = sprite_at(memory.ram@, start as int, n as int);
    let mut collided = false;
    let mut count: usize = 0;
    proof {
        lemma_draw_nothing(before, x as int, y as int);
        assert(sprite.take(0) =~= Seq::<u8>::empty());
    }
    while count < n as usize
        invariant
            count <= n < 16,
            start + n <= MEMORY_SIZE,
            screen_shaped(before),
            sprite == sprite_at(old(memory).ram@, start as int, n as int),
            memory.wf(),
            memory.display@ == draw_pixels(before, x as int, y as int, sprite.take(count as int)),
            collided == draw_collides(before, x as int, y as int, sprite.take(count as int)),
            memory.ram == old(memory).ram,
            memory.keys == old(memory).keys,
            memory.stack == old(memory).stack,
        decreases n - count,
    {
        let sprite_row = memory.ram[start as usize + count];
        proof {
            lemma_draw_next_row(before, x as int, y as int, sprite, count as int);
        }
        let row_collided = memory.set_row(x as usize, y as usize + count, sprite_row);
        collided = collided || row_collided;
        count += 1;
    }
    assert(sprite.take(n as int) =~= sprite);
    collided
}

/// Stores the registers `V0..=Vx` in memory from address `start` on.
fn dump_registers(memory: &mut Memory, registers: &Registers, start: u16, x: u8)
    requires
        x < 16,
        start + x < MEMORY_SIZE,
    ensures
        final(memory).ram@ == Seq::new(
            MEMORY_SIZE as nat,
            |a: int|
                if start <= a <= start + x {
                    registers.vn@[a - start]
                } else {
                    old(memory).ram@[a]
                },
        ),
        final(memory).display == old(memory).display,
        final(memory).keys == old(memory).keys,
        final(memory).stack == old(memory).stack,
{
    let mut k: usize = 0;
    while k <= x as usize
        invariant
            k <= x + 1,
            x < 16,
            start + x < MEMORY_SIZE,
            forall|a: int|
                0 <= a < MEMORY_SIZE ==> memory.ram@[a] == if start <= a < start + k {
                    registers.vn@[a - start]
                } else {
                    old(memory).ram@[a]
                },
            memory.display == old(memory).display,
            memory.keys == old(memory).keys,
            memory.stack == old(memory).stack,
        decreases x + 1 - k,
    {
        memory.ram[start as usize + k] = registers.vn[k];
        k += 1;
    }
    assert(memory.ram@ =~= Seq::new(
        MEMORY_SIZE as nat,
        |a: int|
            if start <= a <= start + x {
                registers.vn@[a - start]
            } else {
                old(memory).ram@[a]
            },
    ));
}

/// Loads the registers `V0..=Vx` from memory from address `start` on.
fn load_registers(memory: &Memory, registers: &mut Registers, start: u16, x: u8)
    requires
        x < 16,
        start + x < MEMORY_SIZE,
    ensures
        final(registers).vn@ == Seq::new(
            16,
            |k: int|
                if k <= x {
                    memory.ram@[start + k]
                } else {
                    old(registers).vn@[k]
                },
        ),
        final(registers).delay == old(registers).delay,
        final(registers).sound == old(registers).sound,
        final(registers).pc == old(registers).pc,
        final(registers).i == old(registers).i,
        final(registers).key_flag == old(registers).key_flag,
{
    let mut k: usize = 0;
    while k <= x as usize
        invariant
            k <= x + 1,
            x < 16,
            start + x < MEMORY_SIZE,
            forall|j: int|
                0 <= j < 16 ==> registers.vn@[j] == if j < k {
                    memory.ram@[start + j]
                } else {
                    old(registers).vn@[j]
                },
            registers.delay == old(registers).delay,
            registers.sound == old(registers).sound,
            registers.pc == old(registers).pc,
            registers.i == old(registers).i,
            registers.key_flag == old(registers).key_flag,
        decreases x + 1 - k,
    {
        registers.vn[k] = memory.ram[start as usize + k];
        k += 1;
    }
    assert(registers.vn@ =~= Seq::new(
        16,
        |k: int|
            if k <= x {
                memory.ram@[start + k]
            } else {
                old(registers).vn@[k]
            },
    ));
}

/// How the result of a step and the machine after it relate to what the
/// step should do: on success the machine is the expected one, on a fault
/// the fault is reported and the machine is unchanged.
pub open spec fn step_outcome(
    before: Machine,
    expected: Result<Machine, Fault>,
    result: Result<(), Fault>,
    after: Machine,
) -> bool {
    match expected {
        Ok(next) => result is Ok && after == next,
        Err(fault) => result == Err::<(), Fault>(fault) && after == before,
    }
}

/// Executes one instruction that was fetched at the program counter.
/// `random` is the byte that a `Rand` instruction consumes; no other
/// instruction reads it. On a fault nothing has changed.
pub fn execute_instruction(
    memory: &mut Memory,
    registers: &mut Registers,
    instruction: Instruction,
    random: u8,
) -> (result: Result<(), Fault>)
    requires
        old(memory).wf(),
        old(registers).wf(),
        instruction.wf(),
        old(registers).pc + 1 < MEMORY_SIZE,
    ensures
        final(memory).wf(),
        final(registers).wf(),
        step_outcome(
            machine(old(memory), old(registers)),
            execute(machine(old(memory), old(registers)), instruction, random),
            result,
            machine(final(memory), final(registers)),
        ),
{
    let ghost before = machine(memory, registers);
    match instruction {
        Instruction::Nop => (),
        Instruction::Jump(addr) => registers.pc = addr as usize,
        Instruction::Call(addr) => {
            memory.stack.push(registers.pc);
            registers.pc = addr as usize;
        },
        Instruction::Ret => {
            match memory.stack.pop() {
                Some(addr) => {
                    registers.pc = addr;
                },
                None => {
                    return Err(Fault::StackUnderflow);
                },
            }
        },
        Instruction::SkipEqImm(reg, imm) => {
            if registers.vn[reg as usize] == imm {
                registers.pc += INSTRUCTION_SIZE;
            }
        },
        Instruction::SkipNeImm(reg, imm) => {
            if registers.vn[reg as usize] != imm {
                registers.pc += INSTRUCTION_SIZE;
            }
        },
        Instruction::SkipEqReg(r1, r2) => {
            if registers.vn[r1 as usize] == registers.vn[r2 as usize] {
                registers.pc += INSTRUCTION_SIZE;
            }
        },
        Instruction::SkipNeReg(r1, r2) => {
            if registers.vn[r1 as usize] != registers.vn[r2 as usize] {
                registers.pc += INSTRUCTION_SIZE;
            }
        },
        Instruction::SetImm(reg, imm) => registers.vn[reg as usize] = imm,
        Instruction::AddImm(reg, imm) => {
            let (result, _) = add_with_overflow(registers.vn[reg as usize], imm);
            registers.vn[reg as usize] = result;
        },
        Instruction::AddReg(vx, vy) => {
            let x: u8 = registers.vn[vx as usize];
            let y: u8 = registers.vn[vy as usize];
            let (result, flag) = add_with_overflow(x, y);
            registers.vn[15] = if flag { 1 } else { 0 };
            registers.vn[vx as usize] = result;
        },
        Instruction::SubReg(vx, vy) => {
            let (result, flag) = subtract_with_underflow(
                registers.vn[vx as usize],
                registers.vn[vy as usize],
            );
            registers.vn[vx as usize] = result;
            registers.vn[15] = if flag { 1 } else { 0 };
        },
        Instruction::SubFrom(vx, vy) => {
            let (result, flag) = subtract_with_underflow(
                registers.vn[vy as usize],
                registers.vn[vx as usize],
            );
            registers.vn[vx as usize] = result;
            registers.vn[15] = if flag { 1 } else { 0 };
        },
        Instruction::ClearScreen => memory.display.clear(),
        Instruction::Draw(vx, vy, n) => {
            if n > 0 && registers.i as usize + n as usize > MEMORY_SIZE {
                return Err(Fault::MemoryOutOfRange);
            }
            let x = registers.vn[vx as usize];
            let y = registers.vn[vy as usize];
            let collided = if n > 0 {
                draw_sprite(memory, x, y, registers.i, n)
            } else {
                proof {
                    lemma_draw_nothing(before.display, x as int, y as int);
                    assert(sprite_at(before.ram, before.i as int, 0) =~= Seq::<u8>::empty());
                }
                false
            };
            registers.vn[15] = if collided { 1 } else { 0 };
        },
        Instruction::SetChar(reg) => {
            let char_index = registers.vn[reg as usize];
            if char_index >= 16 {
                return Err(Fault::GlyphOutOfRange);
            }
            registers.i = char_index as u16 * SPRITE_LEN as u16;
        },
        Instruction::SetMemPtr(imm) => {
            registers.i = imm;
        },
        Instruction::WaitForKey(reg) => registers.key_flag = Some(reg as usize),
        Instruction::SetReg(r1, r2) => registers.vn[r1 as usize] = registers.vn[r2 as usize],
        Instruction::OrReg(r1, r2) => {
            registers.vn[r1 as usize] = registers.vn[r1 as usize] | registers.vn[r2 as usize];
        },
        Instruction::AndReg(r1, r2) => {
            registers.vn[r1 as usize] = registers.vn[r1 as usize] & registers.vn[r2 as usize];
        },
        Instruction::XorReg(r1, r2) => {
            registers.vn[r1 as usize] = registers.vn[r1 as usize] ^ registers.vn[r2 as usize];
        },
        Instruction::Rsh(r1) => {
            registers.vn[15] = registers.vn[r1 as usize] & 1;
            registers.vn[r1 as usize] = registers.vn[r1 as usize] >> 1u8;
        },
        Instruction::Lsh(r1) => {
            registers.vn[15] = registers.vn[r1 as usize] >> 7u8;
            registers.vn[r1 as usize] = registers.vn[r1 as usize] << 1u8;
        },
        Instruction::JumpOffset(imm) => registers.pc = (registers.vn[0] as u16 + imm) as usize,
        Instruction::Rand(reg, imm) => registers.vn[reg as usize] = random & imm,
        Instruction::SkipKeyPressed(reg) => {
            let key = registers.vn[reg as usize];
            if key >= 16 {
                return Err(Fault::KeyOutOfRange);
            }
            if memory.keys[key as usize] {
                registers.pc += INSTRUCTION_SIZE;
            }
        },
        Instruction::SkipKeyNotPressed(reg) => {
            let key = registers.vn[reg as usize];
            if key >= 16 {
                return Err(Fault::KeyOutOfRange);
            }
            if !memory.keys[key as usize] {
                registers.pc += INSTRUCTION_SIZE;
            }
        },
        Instruction::GetDelay(reg) => registers.vn[reg as usize] = registers.delay,
        Instruction::SetDelay(reg) => registers.delay = registers.vn[reg as usize],
        Instruction::SetSound(reg) => registers.sound = registers.vn[reg as usize],
        Instruction::AddMemPtr(reg) => {
            let sum: u32 = registers.i as u32 + registers.vn[reg as usize] as u32;
            registers.i = (sum % 0x10000) as u16;
        },
        Instruction::BCD(reg) => {
            let start = registers.i as usize;
            if start + 2 >= MEMORY_SIZE {
                return Err(Fault::MemoryOutOfRange);
            }
            let val = registers.vn[reg as usize];
            memory.ram[start] = val / 100;
            memory.ram[start + 1] = (val / 10) % 10;
            memory.ram[start + 2] = val % 10;
        },
        Instruction::RegDump(reg) => {
            if registers.i as usize + reg as usize >= MEMORY_SIZE {
                return Err(Fault::MemoryOutOfRange);
            }
            dump_registers(memory, registers, registers.i, reg);
        },
        Instruction::RegLoad(vx) => {
            if registers.i as usize + vx as usize >= MEMORY_SIZE {
                return Err(Fault::MemoryOutOfRange);
            }
            load_registers(memory, registers, registers.i, vx);
        },
    }
    if !matches!(instruction, Instruction::Jump(_) | Instruction::JumpOffset(_) | Instruction::Call(_)) {
        registers.pc += INSTRUCTION_SIZE;
    }
    assert(machine(memory, registers) =~~= execute(before, instruction, random).unwrap());
    Ok(())
}

/// Executes the instruction at the program counter.
///
/// A `Rand` instruction draws its byte from the thread's random generator,
/// so the step is the specified one for some byte. A fault reports why the
/// machine cannot go on and leaves it unchanged.
pub fn do_instruction(memory: &mut Memory, registers: &mut Registers) -> (result: Result<
    (),
    Fault,
>)
    requires
        old(memory).wf(),
        old(registers).wf(),
    ensures
        final(memory).wf(),
        final(registers).wf(),
        exists|random: u8|
            step_outcome(
                machine(old(memory), old(registers)),
                #[trigger] step(machine(old(memory), old(registers)), random),
                result,
                machine(final(memory), final(registers)),
            ),
        !(fetch(machine(old(memory), old(registers))) is Rand) ==> step_outcome(
            machine(old(memory), old(registers)),
            step(machine(old(memory), old(registers)), 0),
            result,
            machine(final(memory), final(registers)),
        ),
{
    if registers.pc >= MEMORY_SIZE - 1 {
        return Err(Fault::PcOutOfRange);
    }
    let instruction = get_instruction(memory, registers);
    let random = match instruction {
        Instruction::Rand(_, _) => random_byte(),
        _ => 0,
    };
    let result = execute_instruction(memory, registers, instruction, random);
    assert(step_outcome(
        machine(old(memory), old(registers)),
        step(machine(old(memory), old(registers)), random),
        result,
        machine(memory, registers),
    ));
    result
}

/// The emulator: a machine and the rate at which a driver should step it.
pub struct Chip8 {
    /// Instructions per second.
    pub clock_speed: u64,
    pub memory: Memory,
    pub registers: Registers,
}

impl View for Chip8 {
    type V = Machine;

    open spec fn view(&self) -> Machine {
        machine(&self.memory, &self.registers)
    }
}

impl Chip8 {
    /// The instruction rate, in instructions per second, of a machine that
    /// was given none.
    pub const DEFAULT_SPEED: u64 = 500;

    /// The machine is well formed.
    pub open spec fn wf(&self) -> bool {
        self@.wf()
    }

    /// A machine before a program is loaded, with the given instruction rate
    /// or, without one, `DEFAULT_SPEED`.
    pub fn init(speed: Option<u64>) -> (chip8: Chip8)
        ensures
            chip8.wf(),
            chip8.clock_speed == (match speed {
                Some(s) => s,
                None => Self::DEFAULT_SPEED,
            }),
            chip8@ == initial_machine(),
    {
        let chip8 = Chip8 {
            clock_speed: match speed {
                Some(s) => s,
                None => Self::DEFAULT_SPEED,
            },
            memory: Memory::default(),
            registers: Registers::default(),
        };
        assert(chip8@ =~~= initial_machine());
        chip8
    }

    /// Sets the instruction rate.
    pub fn clock_speed(&mut self, speed: u64)
        ensures
            final(self).clock_speed == speed,
            final(self).memory == old(self).memory,
            final(self).registers == old(self).registers,
    {
        self.clock_speed = speed;
    }

    /// Copies a program into memory from `PROGRAM_START` on. The program
    /// must fit between that address and the end of memory.
    pub fn load_rom(&mut self, rom: &[u8])
        requires
            rom@.len() <= MEMORY_SIZE - PROGRAM_START,
        ensures
            final(self)@ == (Machine {
                ram: Seq::new(
                    MEMORY_SIZE as nat,
                    |a: int|
                        if PROGRAM_START <= a < PROGRAM_START + rom@.len() {
                            rom@[a - PROGRAM_START]
                        } else {
                            old(self)@.ram[a]
                        },
                ),
                ..old(self)@
            }),
            final(self).clock_speed == old(self).clock_speed,
            old(self).wf() ==> final(self).wf(),
    {
        self.memory.load_rom(rom);
    }

    /// Executes one instruction, unless the machine waits for a key: then
    /// nothing happens.
    pub fn do_instruction(&mut self) -> (result: Result<(), Fault>)
        requires
            old(self).wf(),
        ensures
            final(self).wf(),
            final(self).clock_speed == old(self).clock_speed,
            old(self)@.key_flag is Some ==> result is Ok && final(self)@ == old(self)@,
            old(self)@.key_flag is None ==> exists|random: u8|
                step_outcome(old(self)@, #[trigger] step(old(self)@, random), result, final(self)@),
            old(self)@.key_flag is None && !(fetch(old(self)@) is Rand) ==> step_outcome(
                old(self)@,
                step(old(self)@, 0),
                result,
                final(self)@,
            ),
    {
        if self.registers.key_flag.is_none() {
            do_instruction(&mut self.memory, &mut self.registers)
        } else {
            Ok(())
        }
    }

    /// Counts both timers down by one, each unless it is zero already.
    pub fn tick_timers(&mut self)
        ensures
            final(self)@ == ticked(old(self)@),
            final(self).clock_speed == old(self).clock_speed,
            old(self).wf() ==> final(self).wf(),
            old(self)@.delay == 0 && old(self)@.sound == 0 ==> final(self)@ == old(self)@,
    {
        if self.registers.delay > 0 {
            self.registers.delay -= 1;
        }
        if self.registers.sound > 0 {
            self.registers.sound -= 1;
        }
    }

    /// Records that a key is down. If the machine waits for a key, the key
    /// goes into the waiting register and the machine goes on.
    pub fn set_key(&mut self, key: u8)
        requires
            old(self).wf(),
            key < 16,
        ensures
            final(self).wf(),
            final(self)@ == key_pressed(old(self)@, key),
            final(self).clock_speed == old(self).clock_speed,
    {
        self.memory.keys[key as usize] = true;
        if let Some(dest) = self.registers.key_flag {
            self.registers.vn[dest] = key;
            self.registers.key_flag = None;
        }
    }

    /// Records that no key is down.
    pub fn clear_keys(&mut self)
        ensures
            final(self)@ == (Machine { keys: Seq::new(16, |k: int| false), ..old(self)@ }),
            final(self).clock_speed == old(self).clock_speed,
            old(self).wf() ==> final(self).wf(),
    {
        self.memory.keys = [false; 16];
        assert(self.memory.keys@ =~= Seq::new(16, |k: int| false));
    }

    /// Whether the buzzer sounds.
    pub fn sound(&self) -> (on: bool)
        ensures
            on == (self@.sound > 0),
    {
        self.registers.sound > 0
    }

    /// The program counter.
    pub fn pc(&self) -> (pc: usize)
        ensures
            pc == self@.pc,
    {
        self.registers.pc
    }
}

} // verus!
