//! What a debugger shows of the machine: memory, registers and the
//! instructions around the program counter, as text; and the breakpoints.

use crate::emulator::{Chip8, INSTRUCTION_SIZE, MEMORY_SIZE};
use crate::instructions::Instruction;
use crate::machine::Machine;
use crate::mnemonic::mnemonic_text;
use crate::numeral::{decimal, hexadecimal, push_decimal, push_hex};
use crate::text::{append_chars, chars_of, join, join_words, string_of, views};
use vstd::arithmetic::div_mod::lemma_fundamental_div_mod_converse;
use vstd::prelude::*;

verus! {

/// The number of bytes that the memory view shows.
pub const MEMORY_WINDOW: usize = 64;

/// A byte as the memory view shows it: in hexadecimal, with a space before
/// a single digit.
pub open spec fn byte_cell(byte: u8) -> Seq<char> {
    if byte < 16 {
        seq![' '] + hexadecimal(byte as nat)
    } else {
        hexadecimal(byte as nat)
    }
}

/// The line of index `line` of the memory view: eight bytes with a space
/// between neighbours.
pub open spec fn memory_line(ram: Seq<u8>, start: int, line: int) -> Seq<char> {
    join(Seq::new(8, |column: int| byte_cell(ram[start + 8 * line + column])), seq![' '])
}

/// The memory view: the 64 bytes from the address register on, in eight
/// lines of eight bytes.
pub open spec fn memory_text(m: Machine) -> Seq<char> {
    join(Seq::new(8, |line: int| memory_line(m.ram, m.i as int, line)), seq!['\n'])
}

/// The entries of the register view: the sixteen registers, the timers,
/// the program counter and the address register.
pub open spec fn register_entries(m: Machine) -> Seq<Seq<char>> {
    Seq::new(
        16,
        |k: int| seq!['V'] + hexadecimal(k as nat) + seq![':', ' '] + hexadecimal(m.vn[k] as nat),
    ).push("delay: "@ + decimal(m.delay as nat)).push("sound: "@ + decimal(m.sound as nat)).push(
        "pc: "@ + hexadecimal(m.pc as nat),
    ).push("memory: "@ + hexadecimal(m.i as nat))
}

/// The entry of index `k`, or the empty text where there is none.
pub open spec fn entry_at(entries: Seq<Seq<char>>, k: int) -> Seq<char> {
    if k < entries.len() {
        entries[k]
    } else {
        Seq::empty()
    }
}

/// The row of index `row` of a table of four columns: four entries, a
/// tabulator after each.
pub open spec fn table_row(entries: Seq<Seq<char>>, row: int) -> Seq<char> {
    entry_at(entries, 4 * row) + seq!['\t'] + entry_at(entries, 4 * row + 1) + seq!['\t']
        + entry_at(entries, 4 * row + 2) + seq!['\t'] + entry_at(entries, 4 * row + 3) + seq![
        '\t',
    ]
}

/// A table of four columns: as many rows as the entries need, one per line.
pub open spec fn table(entries: Seq<Seq<char>>) -> Seq<char> {
    join(Seq::new(((entries.len() + 3) / 4) as nat, |row: int| table_row(entries, row)), seq!['\n'])
}

/// The register view.
pub open spec fn register_text(m: Machine) -> Seq<char> {
    table(register_entries(m))
}

/// The memory view of a machine. The 64 bytes from the address register on
/// must lie in memory.
pub fn print_memory(chip8: &Chip8) -> (text: String)
    requires
        chip8@.i + MEMORY_WINDOW <= MEMORY_SIZE,
    ensures
        text@ == memory_text(chip8@),
{
    let start = chip8.registers.i as usize;
    let space: Vec<char> = vec![' '];
    let feed: Vec<char> = vec!['\n'];
    assert(space@ =~= seq![' ']);
    assert(feed@ =~= seq!['\n']);
    let mut lines: Vec<Vec<char>> = Vec::new();
    let mut line: usize = 0;
    while line < 8
        invariant
            line <= 8,
            start == chip8@.i,
            start + MEMORY_WINDOW <= MEMORY_SIZE,
            space@ == seq![' '],
            views(lines@) == Seq::new(line as nat, |l: int| memory_line(chip8@.ram, start as int, l)),
        decreases 8 - line,
    {
        let mut cells: Vec<Vec<char>> = Vec::new();
        let mut column: usize = 0;
        while column < 8
            invariant
                column <= 8,
                line < 8,
                start == chip8@.i,
                start + MEMORY_WINDOW <= MEMORY_SIZE,
                views(cells@) == Seq::new(
                    column as nat,
                    |c: int| byte_cell(chip8@.ram[start + 8 * line + c]),
                ),
            decreases 8 - column,
        {
            let byte = chip8.memory.ram[start + 8 * line + column];
            let mut cell: Vec<char> = Vec::new();
            if byte < 16 {
                cell.push(' ');
            }
            push_hex(&mut cell, byte as u64);
            assert(cell@ =~= byte_cell(byte));
            let ghost before = views(cells@);
            cells.push(cell);
            assert(views(cells@) =~= before.push(byte_cell(byte)));
            assert(views(cells@) =~= Seq::new(
                (column + 1) as nat,
                |c: int| byte_cell(chip8@.ram[start + 8 * line + c]),
            ));
            column += 1;
        }
        let text = join_words(&cells, &space);
        let ghost before = views(lines@);
        lines.push(text);
        assert(views(lines@) =~= before.push(memory_line(chip8@.ram, start as int, line as int)));
        assert(views(lines@) =~= Seq::new(
            (line + 1) as nat,
            |l: int| memory_line(chip8@.ram, start as int, l),
        ));
        line += 1;
    }
    string_of(&join_words(&lines, &feed))
}

/// Lays entries out as a table of four columns.
fn lay_out(entries: &Vec<Vec<char>>) -> (text: Vec<char>)
    requires
        entries@.len() <= 0x1000,
    ensures
        text@ == table(views(entries@)),
{
    let feed: Vec<char> = vec!['\n'];
    assert(feed@ =~= seq!['\n']);
    let count = (entries.len() + 3) / 4;
    let mut rows: Vec<Vec<char>> = Vec::new();
    let mut row: usize = 0;
    while row < count
        invariant
            row <= count == (entries@.len() + 3) / 4,
            entries@.len() <= 0x1000,
            views(rows@) == Seq::new(row as nat, |r: int| table_row(views(entries@), r)),
        decreases count - row,
    {
        let mut text: Vec<char> = Vec::new();
        let mut column: usize = 0;
        while column < 4
            invariant
                column <= 4,
                row < count == (entries@.len() + 3) / 4,
                entries@.len() <= 0x1000,
                text@ == if column == 0 {
                    Seq::<char>::empty()
                } else if column == 1 {
                    entry_at(views(entries@), 4 * row) + seq!['\t']
                } else if column == 2 {
                    entry_at(views(entries@), 4 * row) + seq!['\t'] + entry_at(
                        views(entries@),
                        4 * row + 1,
                    ) + seq!['\t']
                } else if column == 3 {
                    entry_at(views(entries@), 4 * row) + seq!['\t'] + entry_at(
                        views(entries@),
                        4 * row + 1,
                    ) + seq!['\t'] + entry_at(views(entries@), 4 * row + 2) + seq!['\t']
                } else {
                    table_row(views(entries@), row as int)
                },
            decreases 4 - column,
        {
            let ghost before = text@;
            let k = 4 * row + column;
            if k < entries.len() {
                append_chars(&mut text, &entries[k]);
            }
            text.push('\t');
            assert(text@ =~= before + entry_at(views(entries@), k as int) + seq!['\t']);
            column += 1;
        }
        let ghost before = views(rows@);
        rows.push(text);
        assert(views(rows@) =~= before.push(table_row(views(entries@), row as int)));
        assert(views(rows@) =~= Seq::new(
            (row + 1) as nat,
            |r: int| table_row(views(entries@), r),
        ));
        row += 1;
    }
    join_words(&rows, &feed)
}

/// The register view of a machine.
pub fn print_registers(chip8: &Chip8) -> (text: String)
    ensures
        text@ == register_text(chip8@),
{
    let registers = &chip8.registers;
    let mut register_desc: Vec<Vec<char>> = Vec::new();
    let mut index: usize = 0;
    while index < 16
        invariant
            index <= 16,
            registers == &chip8.registers,
            views(register_desc@) == Seq::new(
                index as nat,
                |k: int|
                    seq!['V'] + hexadecimal(k as nat) + seq![':', ' '] + hexadecimal(
                        chip8@.vn[k] as nat,
                    ),
            ),
        decreases 16 - index,
    {
        let mut entry: Vec<char> = vec!['V'];
        assert(entry@ =~= seq!['V']);
        push_hex(&mut entry, index as u64);
        entry.push(':');
        entry.push(' ');
        push_hex(&mut entry, registers.vn[index] as u64);
        let ghost expected = seq!['V'] + hexadecimal(index as nat) + seq![':', ' '] + hexadecimal(
            chip8@.vn[index as int] as nat,
        );
        assert(entry@ =~= expected);
        let ghost before = views(register_desc@);
        register_desc.push(entry);
        assert(views(register_desc@) =~= before.push(expected));
        assert(views(register_desc@) =~= Seq::new(
            (index + 1) as nat,
            |k: int|
                seq!['V'] + hexadecimal(k as nat) + seq![':', ' '] + hexadecimal(
                    chip8@.vn[k] as nat,
                ),
        ));
        index += 1;
    }
    let ghost vs = views(register_desc@);
    let mut delay = chars_of("delay: ");
    push_decimal(&mut delay, registers.delay as u64);
    register_desc.push(delay);
    let mut sound = chars_of("sound: ");
    push_decimal(&mut sound, registers.sound as u64);
    register_desc.push(sound);
    let mut pc = chars_of("pc: ");
    push_hex(&mut pc, registers.pc as u64);
    register_desc.push(pc);
    let mut memory = chars_of("memory: ");
    push_hex(&mut memory, registers.i as u64);
    register_desc.push(memory);
    assert(views(register_desc@) =~= register_entries(chip8@));
    string_of(&lay_out(&register_desc))
}

/// The set of addresses at which a running machine pauses. It owns a
/// `bitvec` array of one bit per address; the array is opaque to the
/// verifier, which knows it only through `breakpoint_bits`.
#[verifier::external_body]
pub struct Breakpoints {
    bits: bitvec::array::BitArray<[u8; 512]>,
}

/// What the bit array holds: `breakpoint_bits(b)[a]` says whether the bit
/// of index `a` is set. The length is the number of bits of the array.
pub uninterp spec fn breakpoint_bits(breakpoints: Breakpoints) -> Seq<bool>;

/// `BitArray::ZERO` for an array of 512 bytes: 4096 bits, none of them set.
#[verifier::external_body]
fn bits_zero() -> (breakpoints: Breakpoints)
    ensures
        breakpoint_bits(breakpoints) == Seq::new(4096, |a: int| false),
{
    Breakpoints { bits: bitvec::array::BitArray::ZERO }
}

/// `get` of a bit slice with one index: the bit at that index, or `None`
/// where the index is not less than the length.
#[verifier::external_body]
fn bits_get(breakpoints: &Breakpoints, index: usize) -> (bit: Option<bool>)
    ensures
        bit == (if index < breakpoint_bits(*breakpoints).len() {
            Some(breakpoint_bits(*breakpoints)[index as int])
        } else {
            None
        }),
{
    breakpoints.bits.get(index).as_deref().copied()
}

/// `set` of a bit slice: the bit at `index` becomes `value`, no other bit
/// changes. The index must be less than the length, else the call panics.
#[verifier::external_body]
fn bits_set(breakpoints: &mut Breakpoints, index: usize, value: bool)
    requires
        index < breakpoint_bits(*old(breakpoints)).len(),
    ensures
        breakpoint_bits(*final(breakpoints)) == breakpoint_bits(*old(breakpoints)).update(
            index as int,
            value,
        ),
{
    breakpoints.bits.set(index, value);
}

impl View for Breakpoints {
    type V = Seq<bool>;

    open spec fn view(&self) -> Seq<bool> {
        breakpoint_bits(*self)
    }
}

impl Breakpoints {
    /// There is one bit per address of memory.
    pub open spec fn wf(&self) -> bool {
        self@.len() == MEMORY_SIZE
    }

    /// No breakpoints.
    pub fn new() -> (breakpoints: Breakpoints)
        ensures
            breakpoints.wf(),
            breakpoints@ == Seq::new(MEMORY_SIZE as nat, |a: int| false),
    {
        bits_zero()
    }

    /// Whether there is a breakpoint at an address. There is none outside
    /// memory.
    pub fn is_set(&self, addr: usize) -> (set: bool)
        ensures
            set == (addr < self@.len() && self@[addr as int]),
    {
        match bits_get(self, addr) {
            Some(bit) => bit,
            None => false,
        }
    }

    /// Sets a breakpoint where there is none and removes it where there is
    /// one. Outside memory nothing happens.
    pub fn toggle(&mut self, addr: usize)
        ensures
            final(self)@ == (if addr < old(self)@.len() {
                old(self)@.update(addr as int, !old(self)@[addr as int])
            } else {
                old(self)@
            }),
    {
        match bits_get(self, addr) {
            Some(bit) => bits_set(self, addr, !bit),
            None => {},
        }
    }
}

/// The part of memory that the instruction view shows.
pub struct InstructionWindow {
    /// The address of the first instruction shown.
    pub start_addr: usize,
    /// The number of instructions shown.
    pub len: usize,
    pub breakpoints: Breakpoints,
}

/// The address of the first instruction that a program has.
pub const BASE_ADDR: usize = 0x200;

/// One line of the instruction view: the address in hexadecimal, two
/// tabulators and the mnemonic of the instruction there; the line of the
/// program counter starts with a tabulator and `>>`.
pub open spec fn window_line(m: Machine, addr: int) -> Seq<char> {
    let word = (m.ram[addr] * 0x100 + m.ram[addr + 1]) as u16;
    (if addr == m.pc {
        "\t>>0x"@
    } else {
        "0x"@
    }) + hexadecimal(addr as nat) + "\t\t"@ + mnemonic_text(Instruction::decode_spec(word))
}

/// The lines of the instruction view, each with its address.
pub open spec fn window_lines(m: Machine, start: int, len: int) -> Seq<(usize, Seq<char>)> {
    Seq::new(
        len as nat,
        |k: int|
            ((start + INSTRUCTION_SIZE * k) as usize, window_line(m, start + INSTRUCTION_SIZE * k)),
    )
}

/// The lines of a list, as plain values.
pub open spec fn lines_view(lines: Seq<(usize, String)>) -> Seq<(usize, Seq<char>)> {
    Seq::new(lines.len(), |k: int| (lines[k].0, lines[k].1@))
}

impl Default for InstructionWindow {
    /// Eight instructions from the start of the program on, no breakpoints.
    fn default() -> (window: InstructionWindow)
        ensures
            window.start_addr == BASE_ADDR,
            window.len == 8,
            window.breakpoints.wf(),
            window.breakpoints@ == Seq::new(MEMORY_SIZE as nat, |a: int| false),
    {
        InstructionWindow { start_addr: BASE_ADDR, len: 8, breakpoints: Breakpoints::new() }
    }
}

impl InstructionWindow {
    /// Moves the window by `direction` bytes; the start address wraps
    /// around at the ends of the address type.
    pub fn scroll(&mut self, direction: isize)
        ensures
            final(self).start_addr == (old(self).start_addr + direction) % (usize::MAX + 1),
            final(self).len == old(self).len,
            final(self).breakpoints == old(self).breakpoints,
    {
        let start = self.start_addr;
        let ghost modulus = usize::MAX + 1;
        let ghost moved = start + direction;
        if direction >= 0 {
            let forward = direction as usize;
            if forward <= usize::MAX - start {
                self.start_addr = start + forward;
                proof {
                    lemma_fundamental_div_mod_converse(moved, modulus, 0, moved);
                }
            } else {
                self.start_addr = forward - (usize::MAX - start) - 1;
                proof {
                    lemma_fundamental_div_mod_converse(moved, modulus, 1, moved - modulus);
                }
            }
        } else {
            let back = (-(direction + 1)) as usize + 1;
            if back <= start {
                self.start_addr = start - back;
                proof {
                    lemma_fundamental_div_mod_converse(moved, modulus, 0, moved);
                }
            } else {
                self.start_addr = usize::MAX - (back - start) + 1;
                proof {
                    lemma_fundamental_div_mod_converse(moved, modulus, -1, moved + modulus);
                }
            }
        }
    }

    /// Moves the window so that it starts three instructions before `addr`,
    /// but not before the start of the program. `addr` must be at least the
    /// size of three instructions.
    pub fn focus(&mut self, addr: usize)
        requires
            addr >= 3 * INSTRUCTION_SIZE,
        ensures
            final(self).start_addr == (if addr - 3 * INSTRUCTION_SIZE >= BASE_ADDR {
                addr - 3 * INSTRUCTION_SIZE
            } else {
                BASE_ADDR as int
            }),
            final(self).len == old(self).len,
            final(self).breakpoints == old(self).breakpoints,
    {
        let before = addr - 3 * INSTRUCTION_SIZE;
        self.start_addr = if before >= BASE_ADDR { before } else { BASE_ADDR };
    }

    /// The addresses that the window shows.
    pub fn range(&self) -> (range: std::ops::Range<usize>)
        requires
            self.start_addr + self.len * INSTRUCTION_SIZE <= usize::MAX,
        ensures
            range.start == self.start_addr,
            range.end == self.start_addr + self.len * INSTRUCTION_SIZE,
    {
        self.start_addr..(self.start_addr + self.len * INSTRUCTION_SIZE)
    }

    /// The lines of the instruction view, each with its address. The window
    /// must lie in memory.
    pub fn lines(&self, chip8: &Chip8) -> (lines: Vec<(usize, String)>)
        requires
            self.start_addr + self.len * INSTRUCTION_SIZE <= MEMORY_SIZE,
        ensures
            lines_view(lines@) == window_lines(chip8@, self.start_addr as int, self.len as int),
    {
        let start_addr = self.start_addr;
        let mut lines: Vec<(usize, String)> = Vec::new();
        let mut k: usize = 0;
        while k < self.len
            invariant
                k <= self.len,
                start_addr == self.start_addr,
                self.start_addr + self.len * INSTRUCTION_SIZE <= MEMORY_SIZE,
                lines_view(lines@) == window_lines(chip8@, start_addr as int, k as int),
            decreases self.len - k,
        {
            let addr = start_addr + INSTRUCTION_SIZE * k;
            let upper = chip8.memory.ram[addr];
            let lower = chip8.memory.ram[addr + 1];
            assert(((upper as u16) << 8) | (lower as u16) == upper * 0x100 + lower) by (bit_vector);
            let instr = Instruction::decode(((upper as u16) << 8) | (lower as u16));
            let mut text = if addr == chip8.pc() {
                chars_of("\t>>0x")
            } else {
                chars_of("0x")
            };
            push_hex(&mut text, addr as u64);
            append_chars(&mut text, &chars_of("\t\t"));
            append_chars(&mut text, &chars_of(instr.to_string().as_str()));
            assert(text@ =~= window_line(chip8@, addr as int));
            let ghost before = lines_view(lines@);
            lines.push((addr, string_of(&text)));
            assert(lines_view(lines@) =~= before.push((addr, window_line(chip8@, addr as int))));
            assert(lines_view(lines@) =~= window_lines(chip8@, start_addr as int, k + 1));
            k += 1;
        }
        lines
    }
}

} // verus!
