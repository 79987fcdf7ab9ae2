//! The machine as a mathematical value, and what one instruction does to it.
//!
//! The execution engine is specified here as a function from a machine, and
//! the random byte that the step may consume, to the next machine or to the
//! fault that stops it.

use crate::display::{screen_shaped, DISPLAY_COLUMNS, DISPLAY_ROWS};
use crate::emulator::{CHAR_SPRITES, INSTRUCTION_SIZE, MEMORY_SIZE, PROGRAM_START, SPRITE_LEN};
use crate::instructions::Instruction;
use vstd::prelude::*;

verus! {

/// The observable state of the machine.
#[verifier::ext_equal]
pub struct Machine {
    /// The 4096 bytes of memory.
    pub ram: Seq<u8>,
    /// The screen: `display[x][y]` is the pixel in column `x`, row `y`.
    pub display: Seq<Seq<bool>>,
    /// Which of the sixteen keys are down.
    pub keys: Seq<bool>,
    /// The return addresses of the calls that have not returned, oldest
    /// first. Each is the address of its `call` instruction.
    pub stack: Seq<usize>,
    /// The registers `V0..=VF`.
    pub vn: Seq<u8>,
    pub delay: u8,
    pub sound: u8,
    pub pc: usize,
    pub i: u16,
    /// The register that waits for a key, while the machine is blocked.
    pub key_flag: Option<usize>,
}

/// Why the machine cannot execute its next instruction.
#[derive(Debug, Clone, Copy, PartialEq, Eq, Structural)]
pub enum Fault {
    /// The program counter does not point at two bytes of memory.
    PcOutOfRange,
    /// A return with an empty call stack.
    StackUnderflow,
    /// The instruction reads or writes memory past its end.
    MemoryOutOfRange,
    /// The register that names a key holds a value over 15.
    KeyOutOfRange,
    /// The register that names a glyph holds a value over 15.
    GlyphOutOfRange,
}

impl Machine {
    /// The parts have their sizes, a waiting register is one of the sixteen
    /// and every return address lies in memory.
    pub open spec fn wf(self) -> bool {
        &&& self.ram.len() == MEMORY_SIZE
        &&& screen_shaped(self.display)
        &&& self.keys.len() == 16
        &&& self.vn.len() == 16
        &&& (self.key_flag matches Some(dest) ==> dest < 16)
        &&& forall|k: int| 0 <= k < self.stack.len() ==> #[trigger] self.stack[k] < MEMORY_SIZE
    }
}

/// Memory as it is before a program is loaded: the glyph sprites from
/// address 0 on, zeroes elsewhere.
pub open spec fn initial_ram() -> Seq<u8> {
    Seq::new(MEMORY_SIZE as nat, |a: int| if a < 80 { CHAR_SPRITES@[a] } else { 0u8 })
}

/// The machine before a program is loaded: the glyphs in memory, a blank
/// screen, all registers zero, the program counter at `PROGRAM_START`.
pub open spec fn initial_machine() -> Machine {
    Machine {
        ram: initial_ram(),
        display: crate::display::blank_pixels(),
        keys: Seq::new(16, |k: int| false),
        stack: Seq::empty(),
        vn: Seq::new(16, |k: int| 0u8),
        delay: 0,
        sound: 0,
        pc: PROGRAM_START,
        i: 0,
        key_flag: None,
    }
}

/// The machine after one tick of the 60 Hz clock: each timer is one less,
/// unless it is zero.
pub open spec fn ticked(m: Machine) -> Machine {
    Machine {
        delay: if m.delay > 0 {
            (m.delay - 1) as u8
        } else {
            0
        },
        sound: if m.sound > 0 {
            (m.sound - 1) as u8
        } else {
            0
        },
        ..m
    }
}

/// The machine after a key went down: the key is recorded, and a machine
/// that waited for a key has it in the waiting register and waits no more.
pub open spec fn key_pressed(m: Machine, key: u8) -> Machine {
    let keys = m.keys.update(key as int, true);
    match m.key_flag {
        Some(dest) => Machine { keys, vn: m.vn.update(dest as int, key), key_flag: None, ..m },
        None => Machine { keys, ..m },
    }
}

/// Whether the pixel in column `index` of a sprite row is lit. Column 0 is
/// the most significant bit.
pub open spec fn bit_of(row: u8, index: int) -> bool {
    row & (0x80u8 >> (index as u8)) != 0
}

/// The sum of two bytes modulo 256, and whether the true sum was over 255.
pub open spec fn add_spec(a: u8, b: u8) -> (u8, bool) {
    (((a + b) % 256) as u8, a + b > 255)
}

/// The difference of two bytes modulo 256, and whether nothing was
/// borrowed.
pub open spec fn sub_spec(a: u8, b: u8) -> (u8, bool) {
    (((a - b) % 256) as u8, a >= b)
}

/// A flag as the byte that `VF` holds for it.
pub open spec fn flag(on: bool) -> u8 {
    if on {
        1
    } else {
        0
    }
}

/// Whether the first `width` pixels of a sprite row that starts in column
/// `x` light the screen column `px`. Columns wrap at the right edge.
pub open spec fn row_lights(byte: u8, x: int, px: int, width: int) -> bool {
    let column = (px - x) % (DISPLAY_COLUMNS as int);
    column < width && bit_of(byte, column)
}

/// The screen after the first `width` pixels of a sprite row were xored
/// onto it at `(x, y)`.
pub open spec fn row_pixels(pixels: Seq<Seq<bool>>, x: int, y: int, byte: u8, width: int) -> Seq<
    Seq<bool>,
> {
    Seq::new(
        DISPLAY_COLUMNS as nat,
        |px: int|
            Seq::new(
                DISPLAY_ROWS as nat,
                |py: int|
                    pixels[px][py] != (py == y % (DISPLAY_ROWS as int) && row_lights(
                        byte,
                        x,
                        px,
                        width,
                    )),
            ),
    )
}

/// Whether one of the first `width` pixels of a sprite row at `(x, y)` is
/// lit where the screen is lit too.
pub open spec fn row_collides(pixels: Seq<Seq<bool>>, x: int, y: int, byte: u8, width: int) -> bool {
    exists|c: int|
        0 <= c < width && #[trigger] bit_of(byte, c) && pixels[(x + c) % (DISPLAY_COLUMNS as int)][y
            % (DISPLAY_ROWS as int)]
}

/// Whether a sprite whose top left corner is at `(x, y)` lights the pixel
/// `(px, py)`. A sprite is 8 pixels wide and one row high per byte; it wraps
/// at the right edge and at the bottom.
pub open spec fn sprite_lights(sprite: Seq<u8>, x: int, y: int, px: int, py: int) -> bool {
    let row = (py - y) % (DISPLAY_ROWS as int);
    let column = (px - x) % (DISPLAY_COLUMNS as int);
    row < sprite.len() && column < 8 && bit_of(sprite[row], column)
}

/// The screen after a sprite of at most 32 rows was xored onto it at
/// `(x, y)`.
pub open spec fn draw_pixels(pixels: Seq<Seq<bool>>, x: int, y: int, sprite: Seq<u8>) -> Seq<
    Seq<bool>,
> {
    Seq::new(
        DISPLAY_COLUMNS as nat,
        |px: int|
            Seq::new(
                DISPLAY_ROWS as nat,
                |py: int| pixels[px][py] != sprite_lights(sprite, x, y, px, py),
            ),
    )
}

/// Whether drawing a sprite at `(x, y)` turns a lit pixel off.
pub open spec fn draw_collides(pixels: Seq<Seq<bool>>, x: int, y: int, sprite: Seq<u8>) -> bool {
    exists|r: int, c: int|
        0 <= r < sprite.len() && 0 <= c < 8 && #[trigger] bit_of(sprite[r], c) && pixels[(x + c) % (
        DISPLAY_COLUMNS as int)][(y + r) % (DISPLAY_ROWS as int)]
}

/// Whether a sprite has a lit pixel.
pub open spec fn sprite_is_lit(sprite: Seq<u8>) -> bool {
    exists|r: int, c: int| 0 <= r < sprite.len() && 0 <= c < 8 && #[trigger] bit_of(sprite[r], c)
}

/// The `n` sprite rows that memory holds from address `start` on.
pub open spec fn sprite_at(ram: Seq<u8>, start: int, n: int) -> Seq<u8> {
    Seq::new(n as nat, |r: int| ram[start + r])
}

/// The instruction at the program counter: the big-endian word in the two
/// bytes there, decoded.
pub open spec fn fetch(m: Machine) -> Instruction {
    Instruction::decode_spec((m.ram[m.pc as int] * 0x100 + m.ram[m.pc + 1]) as u16)
}

/// Whether an instruction sets the program counter itself, so that it is not
/// advanced after it.
pub open spec fn sets_pc(instruction: Instruction) -> bool {
    instruction is Jump || instruction is JumpOffset || instruction is Call
}

/// What an instruction does to the machine before the program counter is
/// advanced.
pub open spec fn apply(m: Machine, instruction: Instruction, random: u8) -> Result<Machine, Fault> {
    match instruction {
        Instruction::Nop => Ok(m),
        Instruction::Jump(addr) => Ok(Machine { pc: addr as usize, ..m }),
        Instruction::Call(addr) => Ok(Machine { stack: m.stack.push(m.pc), pc: addr as usize, ..m }),
        Instruction::Ret => if m.stack.len() == 0 {
            Err(Fault::StackUnderflow)
        } else {
            Ok(Machine { pc: m.stack.last(), stack: m.stack.drop_last(), ..m })
        },
        Instruction::SkipEqImm(x, imm) => Ok(
            if m.vn[x as int] == imm {
                Machine { pc: (m.pc + INSTRUCTION_SIZE) as usize, ..m }
            } else {
                m
            },
        ),
        Instruction::SkipNeImm(x, imm) => Ok(
            if m.vn[x as int] != imm {
                Machine { pc: (m.pc + INSTRUCTION_SIZE) as usize, ..m }
            } else {
                m
            },
        ),
        Instruction::SkipEqReg(x, y) => Ok(
            if m.vn[x as int] == m.vn[y as int] {
                Machine { pc: (m.pc + INSTRUCTION_SIZE) as usize, ..m }
            } else {
                m
            },
        ),
        Instruction::SkipNeReg(x, y) => Ok(
            if m.vn[x as int] != m.vn[y as int] {
                Machine { pc: (m.pc + INSTRUCTION_SIZE) as usize, ..m }
            } else {
                m
            },
        ),
        Instruction::SetImm(x, imm) => Ok(Machine { vn: m.vn.update(x as int, imm), ..m }),
        Instruction::AddImm(x, imm) => Ok(
            Machine { vn: m.vn.update(x as int, add_spec(m.vn[x as int], imm).0), ..m },
        ),
        Instruction::AddReg(x, y) => {
            let (sum, carry) = add_spec(m.vn[x as int], m.vn[y as int]);
            Ok(Machine { vn: m.vn.update(15, flag(carry)).update(x as int, sum), ..m })
        },
        Instruction::SubReg(x, y) => {
            let (difference, no_borrow) = sub_spec(m.vn[x as int], m.vn[y as int]);
            Ok(Machine { vn: m.vn.update(x as int, difference).update(15, flag(no_borrow)), ..m })
        },
        Instruction::SubFrom(x, y) => {
            let (difference, no_borrow) = sub_spec(m.vn[y as int], m.vn[x as int]);
            Ok(Machine { vn: m.vn.update(x as int, difference).update(15, flag(no_borrow)), ..m })
        },
        Instruction::ClearScreen => Ok(
            Machine { display: crate::display::blank_pixels(), ..m },
        ),
        Instruction::Draw(x, y, n) => if n > 0 && m.i + n > MEMORY_SIZE {
            Err(Fault::MemoryOutOfRange)
        } else {
            let sprite = sprite_at(m.ram, m.i as int, n as int);
            let collided = draw_collides(m.display, m.vn[x as int] as int, m.vn[y as int] as int, sprite);
            Ok(
                Machine {
                    display: draw_pixels(
                        m.display,
                        m.vn[x as int] as int,
                        m.vn[y as int] as int,
                        sprite,
                    ),
                    vn: m.vn.update(15, flag(collided)),
                    ..m
                },
            )
        },
        Instruction::SetChar(x) => if m.vn[x as int] >= 16 {
            Err(Fault::GlyphOutOfRange)
        } else {
            Ok(Machine { i: (m.vn[x as int] * SPRITE_LEN) as u16, ..m })
        },
        Instruction::SetMemPtr(imm) => Ok(Machine { i: imm, ..m }),
        Instruction::WaitForKey(x) => Ok(Machine { key_flag: Some(x as usize), ..m }),
        Instruction::SetReg(x, y) => Ok(Machine { vn: m.vn.update(x as int, m.vn[y as int]), ..m }),
        Instruction::OrReg(x, y) => Ok(
            Machine { vn: m.vn.update(x as int, m.vn[x as int] | m.vn[y as int]), ..m },
        ),
        Instruction::AndReg(x, y) => Ok(
            Machine { vn: m.vn.update(x as int, m.vn[x as int] & m.vn[y as int]), ..m },
        ),
        Instruction::XorReg(x, y) => Ok(
            Machine { vn: m.vn.update(x as int, m.vn[x as int] ^ m.vn[y as int]), ..m },
        ),
        Instruction::Rsh(x) => {
            let flagged = m.vn.update(15, m.vn[x as int] & 1);
            Ok(Machine { vn: flagged.update(x as int, flagged[x as int] >> 1u8), ..m })
        },
        Instruction::Lsh(x) => {
            let flagged = m.vn.update(15, m.vn[x as int] >> 7u8);
            Ok(Machine { vn: flagged.update(x as int, flagged[x as int] << 1u8), ..m })
        },
        Instruction::JumpOffset(imm) => Ok(Machine { pc: (m.vn[0] + imm) as usize, ..m }),
        Instruction::Rand(x, imm) => Ok(Machine { vn: m.vn.update(x as int, random & imm), ..m }),
        Instruction::SkipKeyPressed(x) => if m.vn[x as int] >= 16 {
            Err(Fault::KeyOutOfRange)
        } else {
            Ok(
                if m.keys[m.vn[x as int] as int] {
                    Machine { pc: (m.pc + INSTRUCTION_SIZE) as usize, ..m }
                } else {
                    m
                },
            )
        },
        Instruction::SkipKeyNotPressed(x) => if m.vn[x as int] >= 16 {
            Err(Fault::KeyOutOfRange)
        } else {
            Ok(
                if !m.keys[m.vn[x as int] as int] {
                    Machine { pc: (m.pc + INSTRUCTION_SIZE) as usize, ..m }
                } else {
                    m
                },
            )
        },
        Instruction::GetDelay(x) => Ok(Machine { vn: m.vn.update(x as int, m.delay), ..m }),
        Instruction::SetDelay(x) => Ok(Machine { delay: m.vn[x as int], ..m }),
        Instruction::SetSound(x) => Ok(Machine { sound: m.vn[x as int], ..m }),
        Instruction::AddMemPtr(x) => Ok(
            Machine { i: ((m.i + m.vn[x as int]) % 0x10000) as u16, ..m },
        ),
        Instruction::BCD(x) => if m.i + 2 >= MEMORY_SIZE {
            Err(Fault::MemoryOutOfRange)
        } else {
            let value = m.vn[x as int];
            Ok(
                Machine {
                    ram: m.ram.update(m.i as int, value / 100).update(
                        m.i + 1,
                        (value / 10) % 10,
                    ).update(m.i + 2, value % 10),
                    ..m
                },
            )
        },
        Instruction::RegDump(x) => if m.i + x >= MEMORY_SIZE {
            Err(Fault::MemoryOutOfRange)
        } else {
            Ok(
                Machine {
                    ram: Seq::new(
                        MEMORY_SIZE as nat,
                        |a: int|
                            if m.i <= a <= m.i + x {
                                m.vn[a - m.i]
                            } else {
                                m.ram[a]
                            },
                    ),
                    ..m
                },
            )
        },
        Instruction::RegLoad(x) => if m.i + x >= MEMORY_SIZE {
            Err(Fault::MemoryOutOfRange)
        } else {
            Ok(
                Machine {
                    vn: Seq::new(
                        16,
                        |k: int|
                            if k <= x {
                                m.ram[m.i + k]
                            } else {
                                m.vn[k]
                            },
                    ),
                    ..m
                },
            )
        },
    }
}

/// What executing an instruction does to the machine: its effect, and then
/// the program counter moves to the next instruction unless the instruction
/// was a jump or a call. A fault leaves the machine as it was.
pub open spec fn execute(m: Machine, instruction: Instruction, random: u8) -> Result<
    Machine,
    Fault,
> {
    match apply(m, instruction, random) {
        Ok(next) => Ok(
            if sets_pc(instruction) {
                next
            } else {
                Machine { pc: (next.pc + INSTRUCTION_SIZE) as usize, ..next }
            },
        ),
        Err(fault) => Err(fault),
    }
}

/// One step of a machine that is not waiting for a key: fetch the
/// instruction at the program counter, decode it and execute it. `random` is
/// the byte that a `Rand` instruction consumes.
pub open spec fn step(m: Machine, random: u8) -> Result<Machine, Fault> {
    if m.pc + 1 >= MEMORY_SIZE {
        Err(Fault::PcOutOfRange)
    } else {
        execute(m, fetch(m), random)
    }
}

/// A screen column `px` is `c` columns to the right of `x`, wrapping at the
/// edge, exactly when `px` is the wrapped column `x + c`.
pub proof fn lemma_wrap_column(x: int, c: int, px: int)
    requires
        0 <= c < DISPLAY_COLUMNS,
        0 <= px < DISPLAY_COLUMNS,
    ensures
        (px - x) % (DISPLAY_COLUMNS as int) == c <==> px == (x + c) % (DISPLAY_COLUMNS as int),
{
}

/// A screen row `py` is `r` rows below `y`, wrapping at the bottom, exactly
/// when `py` is the wrapped row `y + r`.
pub proof fn lemma_wrap_row(y: int, r: int, py: int)
    requires
        0 <= r < DISPLAY_ROWS,
        0 <= py < DISPLAY_ROWS,
    ensures
        (py - y) % (DISPLAY_ROWS as int) == r <==> py == (y + r) % (DISPLAY_ROWS as int),
{
}

/// Xoring pixel `i` of a sprite row extends the row drawn so far by one
/// pixel.
pub proof fn lemma_draw_row(before: Seq<Seq<bool>>, x: int, y: int, byte: u8, i: int)
    requires
        screen_shaped(before),
        0 <= i < 8,
    ensures
        ({
            let px = (x + i) % (DISPLAY_COLUMNS as int);
            let py = y % (DISPLAY_ROWS as int);
            let drawn = row_pixels(before, x, y, byte, i);
            &&& drawn[px][py] == before[px][py]
            &&& drawn.update(px, drawn[px].update(py, before[px][py] != bit_of(byte, i)))
                == row_pixels(before, x, y, byte, i + 1)
            &&& row_collides(before, x, y, byte, i + 1) == (row_collides(before, x, y, byte, i) || (
            before[px][py] && bit_of(byte, i)))
        }),
{
    let px = (x + i) % (DISPLAY_COLUMNS as int);
    let py = y % (DISPLAY_ROWS as int);
    let drawn = row_pixels(before, x, y, byte, i);
    let next = row_pixels(before, x, y, byte, i + 1);
    lemma_wrap_column(x, i, px);
    let updated = drawn.update(px, drawn[px].update(py, before[px][py] != bit_of(byte, i)));
    assert forall|qx: int, qy: int|
        0 <= qx < DISPLAY_COLUMNS && 0 <= qy < DISPLAY_ROWS implies updated[qx][qy] == next[qx][qy] by {
        lemma_wrap_column(x, i, qx);
    }
    assert(updated =~~= next);
    if row_collides(before, x, y, byte, i + 1) {
        let c = choose|c: int|
            0 <= c < i + 1 && #[trigger] bit_of(byte, c) && before[(x + c) % (
            DISPLAY_COLUMNS as int)][y % (DISPLAY_ROWS as int)];
        if c < i {
            assert(row_collides(before, x, y, byte, i));
        }
    }
    if row_collides(before, x, y, byte, i) {
        let c = choose|c: int|
            0 <= c < i && #[trigger] bit_of(byte, c) && before[(x + c) % (DISPLAY_COLUMNS as int)][y
                % (DISPLAY_ROWS as int)];
        assert(0 <= c < i + 1 && bit_of(byte, c));
    }
    if before[px][py] && bit_of(byte, i) {
        assert(row_collides(before, x, y, byte, i + 1));
    }
}

/// Xoring row `count` of a sprite, one row below the rows drawn so far,
/// extends the drawn sprite by that row.
pub proof fn lemma_draw_next_row(before: Seq<Seq<bool>>, x: int, y: int, sprite: Seq<u8>, count: int)
    requires
        screen_shaped(before),
        0 <= count < sprite.len() <= DISPLAY_ROWS,
    ensures
        ({
            let drawn = draw_pixels(before, x, y, sprite.take(count));
            &&& row_pixels(drawn, x, y + count, sprite[count], 8) == draw_pixels(
                before,
                x,
                y,
                sprite.take(count + 1),
            )
            &&& draw_collides(before, x, y, sprite.take(count + 1)) == (draw_collides(
                before,
                x,
                y,
                sprite.take(count),
            ) || row_collides(drawn, x, y + count, sprite[count], 8))
        }),
{
    let shorter = sprite.take(count);
    let longer = sprite.take(count + 1);
    let drawn = draw_pixels(before, x, y, shorter);
    let row = sprite[count];
    let py = (y + count) % (DISPLAY_ROWS as int);
    let left = row_pixels(drawn, x, y + count, row, 8);
    let right = draw_pixels(before, x, y, longer);
    assert forall|qx: int, qy: int|
        0 <= qx < DISPLAY_COLUMNS && 0 <= qy < DISPLAY_ROWS implies left[qx][qy] == right[qx][qy] by {
        lemma_wrap_row(y, count, qy);
    }
    assert(left =~~= right);
    lemma_wrap_row(y, count, py);
    // The row that is drawn now is untouched by the rows above it.
    assert forall|c: int| 0 <= c < 8 && #[trigger] bit_of(row, c) implies drawn[(x + c) % (
    DISPLAY_COLUMNS as int)][py] == before[(x + c) % (DISPLAY_COLUMNS as int)][py] by {}
    if draw_collides(before, x, y, longer) {
        let (r, c) = choose|r: int, c: int|
            0 <= r < longer.len() && 0 <= c < 8 && #[trigger] bit_of(longer[r], c) && before[(x + c)
                % (DISPLAY_COLUMNS as int)][(y + r) % (DISPLAY_ROWS as int)];
        if r < count {
            assert(bit_of(shorter[r], c));
            assert(draw_collides(before, x, y, shorter));
        } else {
            assert(bit_of(row, c));
            assert(row_collides(drawn, x, y + count, row, 8));
        }
    }
    if draw_collides(before, x, y, shorter) {
        let (r, c) = choose|r: int, c: int|
            0 <= r < shorter.len() && 0 <= c < 8 && #[trigger] bit_of(shorter[r], c) && before[(x
                + c) % (DISPLAY_COLUMNS as int)][(y + r) % (DISPLAY_ROWS as int)];
        assert(bit_of(longer[r], c));
        assert(draw_collides(before, x, y, longer));
    }
    if row_collides(drawn, x, y + count, row, 8) {
        let c = choose|c: int|
            0 <= c < 8 && #[trigger] bit_of(row, c) && drawn[(x + c) % (DISPLAY_COLUMNS as int)][(y
                + count) % (DISPLAY_ROWS as int)];
        assert(bit_of(longer[count], c));
        assert(draw_collides(before, x, y, longer));
    }
}

/// Drawing no rows changes nothing and collides with nothing.
pub proof fn lemma_draw_nothing(before: Seq<Seq<bool>>, x: int, y: int)
    requires
        screen_shaped(before),
    ensures
        draw_pixels(before, x, y, Seq::<u8>::empty()) == before,
        !draw_collides(before, x, y, Seq::<u8>::empty()),
{
    assert(draw_pixels(before, x, y, Seq::<u8>::empty()) =~~= before);
}

/// Drawing the same sprite twice at the same place on a blank screen: the
/// first draw collides with nothing; the second turns every pixel off again
/// and collides exactly when the sprite has a lit pixel.
pub proof fn lemma_draw_twice(x: int, y: int, sprite: Seq<u8>)
    requires
        sprite.len() <= DISPLAY_ROWS,
    ensures
        !draw_collides(crate::display::blank_pixels(), x, y, sprite),
        draw_pixels(draw_pixels(crate::display::blank_pixels(), x, y, sprite), x, y, sprite)
            == crate::display::blank_pixels(),
        draw_collides(draw_pixels(crate::display::blank_pixels(), x, y, sprite), x, y, sprite)
            == sprite_is_lit(sprite),
{
    let blank = crate::display::blank_pixels();
    let once = draw_pixels(blank, x, y, sprite);
    let twice = draw_pixels(once, x, y, sprite);
    assert(twice =~~= blank);
    assert forall|r: int, c: int| 0 <= r < sprite.len() && 0 <= c < 8 && #[trigger] bit_of(
        sprite[r],
        c,
    ) implies once[(x + c) % (DISPLAY_COLUMNS as int)][(y + r) % (DISPLAY_ROWS as int)] by {
        lemma_wrap_column(x, c, (x + c) % (DISPLAY_COLUMNS as int));
        lemma_wrap_row(y, r, (y + r) % (DISPLAY_ROWS as int));
    }
    if sprite_is_lit(sprite) {
        let (r, c) = choose|r: int, c: int|
            0 <= r < sprite.len() && 0 <= c < 8 && #[trigger] bit_of(sprite[r], c);
        assert(once[(x + c) % (DISPLAY_COLUMNS as int)][(y + r) % (DISPLAY_ROWS as int)]);
        assert(draw_collides(once, x, y, sprite));
    }
}

/// The stack discipline of call and return. When a machine executes a call,
/// and a later machine whose call stack is the one that the call left
/// executes a return, the return continues at the instruction after the call
/// and leaves the call stack as it was before the call.
pub proof fn lemma_call_then_ret(caller: Machine, later: Machine, random: u8, later_random: u8)
    requires
        caller.pc + 1 < MEMORY_SIZE,
        fetch(caller) is Call,
        later.pc + 1 < MEMORY_SIZE,
        fetch(later) is Ret,
        step(caller, random) matches Ok(called) && later.stack == called.stack,
    ensures
        step(later, later_random) matches Ok(returned) && returned.pc == caller.pc
            + INSTRUCTION_SIZE && returned.stack == caller.stack,
{
    let called = step(caller, random).unwrap();
    assert(called.stack == caller.stack.push(caller.pc));
    assert(later.stack.drop_last() =~= caller.stack);
}

/// A step keeps the machine well formed.
pub proof fn lemma_step_keeps_wf(m: Machine, random: u8)
    requires
        m.wf(),
    ensures
        step(m, random) matches Ok(next) ==> next.wf(),
{
    if m.pc + 1 < MEMORY_SIZE {
        let instruction = fetch(m);
        assert(instruction.wf());
        match apply(m, instruction, random) {
            Ok(next) => {
                assert(screen_shaped(next.display));
                assert forall|k: int| 0 <= k < next.stack.len() implies #[trigger] next.stack[k]
                    < MEMORY_SIZE by {
                    if k < m.stack.len() {
                        assert(m.stack[k] < MEMORY_SIZE);
                    }
                }
            },
            Err(_) => {},
        }
    }
}

/// A tick changes nothing once both timers are at zero.
pub proof fn lemma_tick_at_zero(m: Machine)
    requires
        m.delay == 0,
        m.sound == 0,
    ensures
        ticked(m) == m,
{
}

/// The flags of byte arithmetic: addition flags a sum over 255, subtraction
/// flags that nothing was borrowed, that is `a >= b`; both results are taken
/// modulo 256.
pub proof fn lemma_arithmetic_flags(a: u8, b: u8)
    ensures
        add_spec(a, b).1 == (a + b > 255),
        add_spec(a, b).0 == if a + b > 255 {
            a + b - 256
        } else {
            a + b
        },
        sub_spec(a, b).1 == (a >= b),
        sub_spec(a, b).0 == if a >= b {
            a - b
        } else {
            a - b + 256
        },
{
}

} // verus!
