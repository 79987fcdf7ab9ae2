//! The assembler with labels: building a program from its text, resolving
//! its labels and emitting its bytes.

use crate::emulator::{INSTRUCTION_SIZE, PROGRAM_START};
use crate::errors::{Error, SyntaxFailure};
use crate::grammar::{
    empty_program, lemma_program_lines_fail, lemma_program_pieces_fail, lemma_statement_keeps_wf,
    parsed_program, program_lines, program_pieces, statement_failure, with_statement, LineView,
    ProgramView,
};
use crate::instructions::Instruction;
pub use crate::parser::{InstructionParser, Line, Parsed};
use crate::parser::{parse_trimmed, text_of};
use crate::text::{
    chars_of, lemma_piece_lies_in_text, lines, lines_of, piece_start, split, split_text,
    string_of, trim_bounds, trimmed, views, Separator,
};
use vstd::prelude::*;

verus! {

/// The map that a list of definitions makes: each name with the target of
/// its last definition.
pub open spec fn defined(entries: Seq<(Vec<char>, usize)>) -> Map<Seq<char>, usize>
    decreases entries.len(),
{
    if entries.len() == 0 {
        Map::empty()
    } else {
        defined(entries.drop_last()).insert(entries.last().0@, entries.last().1)
    }
}

/// The label table: from the name of a label to the number of lines that
/// stand before its definition.
#[derive(Debug)]
pub struct Labels {
    entries: Vec<(Vec<char>, usize)>,
}

impl View for Labels {
    type V = Map<Seq<char>, usize>;

    closed spec fn view(&self) -> Map<Seq<char>, usize> {
        defined(self.entries@)
    }
}

impl Labels {
    /// A table without labels.
    pub fn new() -> (labels: Labels)
        ensures
            labels@ == Map::<Seq<char>, usize>::empty(),
    {
        Labels { entries: Vec::new() }
    }

    /// Enters a label. An earlier entry of the same name is replaced.
    pub fn insert(&mut self, name: &str, target: usize)
        ensures
            final(self)@ == old(self)@.insert(name@, target),
    {
        let ghost before = self.entries@;
        self.entries.push((chars_of(name), target));
        assert(self.entries@.drop_last() =~= before);
    }

    /// The target of a label, if the label is defined.
    pub fn get(&self, name: &str) -> (target: Option<&usize>)
        ensures
            match target {
                Some(target) => self@.dom().contains(name@) && self@[name@] == *target,
                None => !self@.dom().contains(name@),
            },
    {
        let wanted = chars_of(name);
        let mut k: usize = self.entries.len();
        assert(self.entries@.take(k as int) =~= self.entries@);
        while k > 0
            invariant
                k <= self.entries@.len(),
                wanted@ == name@,
                defined(self.entries@).dom().contains(name@) == defined(
                    self.entries@.take(k as int),
                ).dom().contains(name@),
                defined(self.entries@).dom().contains(name@) ==> defined(self.entries@)[name@]
                    == defined(self.entries@.take(k as int))[name@],
            decreases k,
        {
            proof {
                assert(self.entries@.take(k as int).drop_last() =~= self.entries@.take(k - 1));
            }
            if crate::text::same_chars(&self.entries[k - 1].0, &wanted) {
                return Some(&self.entries[k - 1].1);
            }
            k -= 1;
        }
        None
    }
}

/// A copy of a line.
fn copy_line(line: &Line) -> (copy: Line)
    ensures
        copy@ == line@,
{
    match line {
        Line::Instr(instruction) => Line::Instr(*instruction),
        Line::Data(bytes) => Line::Data(bytes.clone()),
    }
}

/// A program: its lines, its labels and the labels that its lines name.
#[derive(Debug)]
pub struct Program {
    /// The lines of the program in the order in which they appear.
    pub instructions: Vec<Line>,
    /// Maps the name of each label to the number of lines before it.
    pub labels: Labels,
    /// For each line the label that it uses, if any: `references[i]` is
    /// `Some(label)` exactly when `instructions[i]` is a call or a jump to
    /// that label.
    pub references: Vec<Option<String>>,
}

impl View for Program {
    type V = ProgramView;

    open spec fn view(&self) -> ProgramView {
        ProgramView {
            instructions: Seq::new(self.instructions@.len(), |k: int| self.instructions@[k]@),
            labels: self.labels@,
            references: Seq::new(self.references@.len(), |k: int| text_of(self.references@[k])),
        }
    }
}

/// Why a label could not be resolved.
#[derive(Debug, Clone, Copy, PartialEq, Eq, Structural)]
pub enum ResolveError {
    /// The line of that index names a label that is not defined.
    UndefinedLabel(usize),
    /// The label that the line of that index names stands at an address
    /// that does not fit the 12 bits of an address operand.
    AddressOutOfRange(usize),
}

/// The number of bytes that a line takes.
pub open spec fn line_size(line: LineView) -> nat {
    match line {
        LineView::Instr(_) => INSTRUCTION_SIZE as nat,
        LineView::Data(bytes) => bytes.len(),
    }
}

/// The number of bytes that the first `count` lines take.
pub open spec fn bytes_before(lines: Seq<LineView>, count: int) -> nat
    decreases count,
{
    if count <= 0 {
        0
    } else {
        bytes_before(lines, count - 1) + line_size(lines[count - 1])
    }
}

/// The line of index `usage` with its label resolved: the address of a
/// label is the load address plus the bytes of the lines before it.
pub open spec fn resolve_line(program: ProgramView, usage: int) -> Result<LineView, ResolveError> {
    match program.references[usage] {
        None => Ok(program.instructions[usage]),
        Some(label) => if !program.labels.dom().contains(label) {
            Err(ResolveError::UndefinedLabel(usage as usize))
        } else {
            let address = PROGRAM_START + bytes_before(
                program.instructions,
                program.labels[label] as int,
            );
            if address > 0xFFF {
                Err(ResolveError::AddressOutOfRange(usage as usize))
            } else {
                match program.instructions[usage] {
                    LineView::Instr(Instruction::Call(_)) => Ok(
                        LineView::Instr(Instruction::Call(address as u16)),
                    ),
                    LineView::Instr(Instruction::Jump(_)) => Ok(
                        LineView::Instr(Instruction::Jump(address as u16)),
                    ),
                    other => Ok(other),
                }
            }
        },
    }
}

/// The first `count` lines with their labels resolved, or the failure of
/// the first line whose label cannot be resolved.
pub open spec fn resolve_lines(program: ProgramView, count: int) -> Result<
    Seq<LineView>,
    ResolveError,
>
    decreases count,
{
    if count <= 0 {
        Ok(Seq::empty())
    } else {
        match resolve_lines(program, count - 1) {
            Err(error) => Err(error),
            Ok(lines) => match resolve_line(program, count - 1) {
                Ok(line) => Ok(lines.push(line)),
                Err(error) => Err(error),
            },
        }
    }
}

/// The lines of a program with every label resolved.
pub open spec fn resolved(program: ProgramView) -> Result<Seq<LineView>, ResolveError> {
    resolve_lines(program, program.instructions.len() as int)
}

/// The bytes of the lines of a program in a row: the big-endian word of
/// each instruction, the bytes of each data block.
pub open spec fn compiled(lines: Seq<LineView>) -> Seq<u8>
    decreases lines.len(),
{
    if lines.len() == 0 {
        Seq::empty()
    } else {
        compiled(lines.drop_last()) + match lines.last() {
            LineView::Instr(instruction) => seq![
                (instruction.encode_spec() / 0x100) as u8,
                (instruction.encode_spec() % 0x100) as u8,
            ],
            LineView::Data(bytes) => bytes,
        }
    }
}

/// A failure among the first lines is the failure of the program.
pub proof fn lemma_resolve_fails(program: ProgramView, k: int)
    requires
        0 <= k <= program.instructions.len(),
        resolve_lines(program, k) is Err,
    ensures
        resolved(program) == resolve_lines(program, k),
    decreases program.instructions.len() - k,
{
    if k < program.instructions.len() {
        lemma_resolve_fails(program, k + 1);
    }
}

/// The bytes before a line are at least the bytes before an earlier line.
pub proof fn lemma_bytes_before_grows(lines: Seq<LineView>, k: int, count: int)
    requires
        0 <= k <= count,
    ensures
        bytes_before(lines, k) <= bytes_before(lines, count),
    decreases count - k,
{
    if k < count {
        lemma_bytes_before_grows(lines, k, count - 1);
    }
}

impl Program {
    /// The program is well formed: see `ProgramView::wf`.
    pub open spec fn wf(&self) -> bool {
        self@.wf()
    }

    /// A program without lines and labels.
    pub fn new() -> (program: Program)
        ensures
            program@ == empty_program(),
            program.wf(),
    {
        let program = Program {
            instructions: Vec::new(),
            labels: Labels::new(),
            references: Vec::new(),
        };
        assert(program@ =~= empty_program());
        program
    }

    /// Adds one statement to the program.
    fn add(&mut self, parsed: Parsed)
        ensures
            final(self)@ == with_statement(old(self)@, parsed@),
    {
        match parsed {
            Parsed::Label(name) => {
                self.labels.insert(name.as_str(), self.instructions.len());
            },
            Parsed::Line(line, reference) => {
                self.instructions.push(line);
                self.references.push(reference);
            },
        }
        assert(self@ =~= with_statement(old(self)@, parsed@));
    }

    /// The address of the line of index `target`: the load address plus the
    /// bytes of the lines before it, if that fits in 12 bits.
    fn address_of(&self, target: usize) -> (address: Option<u16>)
        requires
            target <= self.instructions@.len(),
        ensures
            address == (if PROGRAM_START + bytes_before(self@.instructions, target as int)
                <= 0xFFF {
                Some((PROGRAM_START + bytes_before(self@.instructions, target as int)) as u16)
            } else {
                None
            }),
    {
        let mut total: usize = PROGRAM_START;
        let mut k: usize = 0;
        while k < target
            invariant
                k <= target <= self.instructions@.len(),
                total == PROGRAM_START + bytes_before(self@.instructions, k as int),
                total <= 0xFFF,
            decreases target - k,
        {
            let size = match &self.instructions[k] {
                Line::Instr(_) => INSTRUCTION_SIZE,
                Line::Data(data) => data.len(),
            };
            assert(size == line_size(self@.instructions[k as int]));
            if size > 0xFFF - total {
                proof {
                    lemma_bytes_before_grows(self@.instructions, k + 1, target as int);
                }
                return None;
            }
            total += size;
            k += 1;
        }
        Some(total as u16)
    }

    /// Replaces every use of a label with the address of that label. An
    /// undefined label, or one whose address does not fit an address
    /// operand, is an error and leaves the program unchanged.
    pub fn fix_references(&mut self) -> (result: Result<(), ResolveError>)
        requires
            old(self).wf(),
        ensures
            final(self).wf(),
            match resolved(old(self)@) {
                Ok(lines) => result is Ok && final(self)@ == (ProgramView {
                    instructions: lines,
                    ..old(self)@
                }),
                Err(error) => result == Err::<(), ResolveError>(error) && final(self)@ == old(
                    self,
                )@,
            },
    {
        let mut fixed: Vec<Line> = Vec::new();
        let mut usage: usize = 0;
        assert(Seq::new(0, |k: int| fixed@[k]@) =~= Seq::<LineView>::empty());
        while usage < self.references.len()
            invariant
                usage <= self.references@.len(),
                self == old(self),
                self.wf(),
                fixed@.len() == usage,
                resolve_lines(self@, usage as int) == Ok::<Seq<LineView>, ResolveError>(
                    Seq::new(usage as nat, |k: int| fixed@[k]@),
                ),
                forall|k: int|
                    0 <= k < usage && self@.references[k] is Some ==> (#[trigger] fixed@[k]@
                        matches LineView::Instr(i) && (i is Jump || i is Call)),
            decreases self.references@.len() - usage,
        {
            let ghost before = Seq::new(usage as nat, |k: int| fixed@[k]@);
            assert(self@.references[usage as int] == text_of(self.references@[usage as int]));
            assert(self@.instructions[usage as int] == self.instructions@[usage as int]@);
            let line = match &self.references[usage] {
                None => copy_line(&self.instructions[usage]),
                Some(label) => {
                    let target = match self.labels.get(label.as_str()) {
                        Some(target) => *target,
                        None => {
                            proof {
                                lemma_resolve_fails(self@, usage + 1);
                            }
                            return Err(ResolveError::UndefinedLabel(usage));
                        },
                    };
                    assert(self@.labels[label@] <= self@.instructions.len());
                    let new_addr = match self.address_of(target) {
                        Some(address) => address,
                        None => {
                            proof {
                                lemma_resolve_fails(self@, usage + 1);
                            }
                            return Err(ResolveError::AddressOutOfRange(usage));
                        },
                    };
                    match &self.instructions[usage] {
                        Line::Instr(Instruction::Call(_)) => Line::Instr(
                            Instruction::Call(new_addr),
                        ),
                        Line::Instr(Instruction::Jump(_)) => Line::Instr(
                            Instruction::Jump(new_addr),
                        ),
                        other => copy_line(other),
                    }
                },
            };
            assert(line@ == resolve_line(self@, usage as int).unwrap());
            fixed.push(line);
            assert(Seq::new((usage + 1) as nat, |k: int| fixed@[k]@) =~= before.push(line@));
            usage += 1;
        }
        let ghost lines = Seq::new(usage as nat, |k: int| fixed@[k]@);
        self.instructions = fixed;
        assert(self@ =~= (ProgramView { instructions: lines, ..old(self)@ }));
        Ok(())
    }

    /// The bytes of the program: the big-endian word of each instruction
    /// and the bytes of each data block, in the order of the lines.
    pub fn compile(&self) -> (bytes: Vec<u8>)
        ensures
            bytes@ == compiled(self@.instructions),
    {
        let mut bytes: Vec<u8> = Vec::new();
        let mut k: usize = 0;
        assert(self@.instructions.take(0) =~= Seq::<LineView>::empty());
        while k < self.instructions.len()
            invariant
                k <= self.instructions@.len(),
                bytes@ == compiled(self@.instructions.take(k as int)),
            decreases self.instructions@.len() - k,
        {
            proof {
                let done = self@.instructions.take(k + 1);
                assert(done.drop_last() =~= self@.instructions.take(k as int));
                assert(done.last() == self.instructions@[k as int]@);
            }
            let ghost before = bytes@;
            match &self.instructions[k] {
                Line::Instr(instruction) => {
                    let word = instruction.encode();
                    assert((word >> 8) == word / 0x100 && (word & 0xFF) == word % 0x100)
                        by (bit_vector);
                    bytes.push((word >> 8) as u8);
                    bytes.push((word & 0xFF) as u8);
                    assert(bytes@ =~= before + seq![(word / 0x100) as u8, (word % 0x100) as u8]);
                },
                Line::Data(data) => {
                    let mut j: usize = 0;
                    while j < data.len()
                        invariant
                            j <= data@.len(),
                            bytes@ == before + data@.take(j as int),
                        decreases data@.len() - j,
                    {
                        bytes.push(data[j]);
                        assert(data@.take(j + 1) =~= data@.take(j as int).push(data@[j as int]));
                        j += 1;
                    }
                    assert(data@.take(data@.len() as int) =~= data@);
                },
            }
            k += 1;
        }
        assert(self@.instructions.take(self.instructions@.len() as int) =~= self@.instructions);
        bytes
    }
}

/// Where the piece of index `k` of a line starts in the line.
fn start_of(line: &Vec<char>, pieces: &Vec<Vec<char>>, k: usize) -> (start: usize)
    requires
        views(pieces@) == split(line@, Separator::Char(';')),
        k < pieces@.len(),
    ensures
        start == piece_start(views(pieces@), k as int),
        start + pieces@[k as int]@.len() <= line@.len(),
{
    let ghost all = views(pieces@);
    let length = line.len();
    let mut start: usize = 0;
    let mut j: usize = 0;
    proof {
        lemma_piece_lies_in_text(line@, Separator::Char(';'), 0);
    }
    while j < k
        invariant
            j <= k < pieces@.len(),
            length == line@.len(),
            all == views(pieces@),
            all == split(line@, Separator::Char(';')),
            start == piece_start(all, j as int),
            start + all[j as int].len() <= line@.len(),
        decreases k - j,
    {
        proof {
            lemma_piece_lies_in_text(line@, Separator::Char(';'), j + 1);
            assert(all[j as int] == pieces@[j as int]@);
        }
        start = start + pieces[j].len() + 1;
        j += 1;
    }
    assert(all[k as int] == pieces@[k as int]@);
    start
}

/// The error of the statement in the piece of index `k` of a line.
fn syntax_error(
    line: &Vec<char>,
    line_number: usize,
    pieces: &Vec<Vec<char>>,
    k: usize,
    message: &Vec<char>,
) -> (error: Error)
    requires
        views(pieces@) == split(line@, Separator::Char(';')),
        k < pieces@.len(),
    ensures
        error@ == statement_failure(line_number as int, views(pieces@), k as int, message@),
{
    let (from, to) = trim_bounds(&pieces[k]);
    let start = start_of(line, pieces, k);
    let length = line.len();
    assert(views(pieces@)[k as int] == pieces@[k as int]@);
    assert(start + to <= length);
    Error {
        file_name: String::new(),
        line_number,
        start: start + from,
        end: start + to,
        mnemonic: string_of(&trimmed(&pieces[k])),
        message: string_of(message),
    }
}

/// Parses an assembly text into a program. Each line holds statements
/// that semicolons separate; a label enters the number of lines so far
/// into the label table, every other statement appends a line. The first
/// statement that cannot be parsed is an error that carries the statement,
/// the reason, the index of the line and where in the line the statement
/// stands.
pub fn parse_program(file: &str) -> (result: Result<Program, Error>)
    ensures
        match parsed_program(file@) {
            Ok(expected) => result matches Ok(program) && program@ == expected && program.wf(),
            Err(failure) => result matches Err(error) && error@ == failure,
        },
{
    let all = lines_of(&chars_of(file));
    let mut program = Program::new();
    let mut line_number: usize = 0;
    assert(views(all@).take(0) =~= Seq::<Seq<char>>::empty());
    while line_number < all.len()
        invariant
            line_number <= all@.len(),
            views(all@) == lines(file@),
            program.wf(),
            program_lines(views(all@).take(line_number as int)) == Ok::<
                ProgramView,
                SyntaxFailure,
            >(program@),
        decreases all@.len() - line_number,
    {
        let ghost before = program@;
        let pieces = split_text(&all[line_number], Separator::Char(';'));
        let mut k: usize = 0;
        assert(views(pieces@).take(0) =~= Seq::<Seq<char>>::empty());
        proof {
            let done = views(all@).take(line_number + 1);
            assert(done.drop_last() =~= views(all@).take(line_number as int));
            assert(done.last() == all@[line_number as int]@);
        }
        while k < pieces.len()
            invariant
                k <= pieces@.len(),
                line_number < all@.len(),
                views(all@) == lines(file@),
                program.wf(),
                program_pieces(before, views(pieces@).take(k as int)) == Ok::<
                    ProgramView,
                    (int, Seq<char>),
                >(program@),
                views(pieces@) == split(all@[line_number as int]@, Separator::Char(';')),
                program_lines(views(all@).take(line_number as int)) == Ok::<
                    ProgramView,
                    SyntaxFailure,
                >(before),
            decreases pieces@.len() - k,
        {
            proof {
                let done = views(pieces@).take(k + 1);
                assert(done.drop_last() =~= views(pieces@).take(k as int));
                assert(done.last() == pieces@[k as int]@);
            }
            let statement = trimmed(&pieces[k]);
            if statement.len() > 0 {
                let ghost earlier = program@;
                match parse_trimmed(&statement) {
                    Ok(parsed) => {
                        proof {
                            lemma_statement_keeps_wf(earlier, statement@, parsed@);
                        }
                        program.add(parsed);
                    },
                    Err(message) => {
                        let error = syntax_error(
                            &all[line_number],
                            line_number,
                            &pieces,
                            k,
                            &message,
                        );
                        proof {
                            let failed = views(pieces@).take(k + 1);
                            assert(program_pieces(before, failed) == Err::<
                                ProgramView,
                                (int, Seq<char>),
                            >((k as int, message@)));
                            lemma_program_pieces_fail(before, views(pieces@), k + 1);
                            let failing = views(all@).take(line_number + 1);
                            assert(failing.drop_last() =~= views(all@).take(line_number as int));
                            assert(failing.last() == all@[line_number as int]@);
                            assert(program_lines(failing) == Err::<ProgramView, SyntaxFailure>(
                                error@,
                            ));
                            lemma_program_lines_fail(views(all@), line_number + 1);
                        }
                        return Err(error);
                    },
                }
            }
            k += 1;
        }
        assert(views(pieces@).take(pieces@.len() as int) =~= views(pieces@));
        line_number += 1;
    }
    assert(views(all@).take(all@.len() as int) =~= views(all@));
    Ok(program)
}

} // verus!
