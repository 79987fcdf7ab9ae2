//! The grammar of the assembly language with labels.
//!
//! A statement is a label, an instruction or a block of data bytes.
//!
//! * A label is a name followed by a colon. A name is made of ASCII letters,
//!   digits and underscores and does not start with a digit.
//! * An instruction is a keyword and its operands, separated by white space.
//!   Keywords, register names and place names are matched without regard to
//!   ASCII case. A register is the marker `v` and a decimal number. A number
//!   is decimal, or hexadecimal after `0x`.
//! * The operand of `jp` and `call` is an address: a number, or the name of
//!   a label.
//! * `bytes` is followed by the bytes of the block, each hexadecimal after
//!   `0x`.

use crate::instructions::Instruction;
use crate::mnemonic::{keyword_named, place_named, with_one, with_three, with_two, Keyword, Place};
use crate::numeral::{parse_decimal, parse_hex};
use crate::errors::SyntaxFailure;
use crate::text::{left_margin, lowercase, piece_start, split, trim, words, Separator};
use vstd::prelude::*;

verus! {

/// A line of a program as plain values.
pub enum LineView {
    /// One instruction; it takes two bytes.
    Instr(Instruction),
    /// A block of literal bytes.
    Data(Seq<u8>),
}

/// What the operand of a jump or a call names.
pub enum Target {
    /// An address that is written out.
    Fixed(u16),
    /// The label of that name.
    Label(Seq<char>),
}

/// What a statement says.
pub enum Statement {
    /// The definition of the label of that name.
    Label(Seq<char>),
    /// A line of the program and, where its address is the name of a
    /// label, that name.
    Line(LineView, Option<Seq<char>>),
}

/// Whether a character can start a name.
pub open spec fn is_name_start(c: char) -> bool {
    ('a' <= c <= 'z') || ('A' <= c <= 'Z') || c == '_'
}

/// Whether a character can stand in a name.
pub open spec fn is_name_char(c: char) -> bool {
    is_name_start(c) || ('0' <= c <= '9')
}

/// Whether a word is a name.
pub open spec fn is_name(word: Seq<char>) -> bool {
    &&& word.len() > 0
    &&& is_name_start(word[0])
    &&& forall|k: int| 0 <= k < word.len() ==> is_name_char(#[trigger] word[k])
}

/// Whether a word starts with the register marker.
pub open spec fn is_marked(word: Seq<char>) -> bool {
    word.len() > 0 && (word[0] == 'v' || word[0] == 'V')
}

/// Whether a word starts with the prefix of a hexadecimal number.
pub open spec fn is_hex(word: Seq<char>) -> bool {
    word.len() >= 2 && word[0] == '0' && word[1] == 'x'
}

/// The register that a word names.
pub open spec fn register_named(word: Seq<char>) -> Result<u8, Seq<char>> {
    if is_marked(word) {
        match parse_decimal(word.skip(1), 0xFF) {
            Some(index) => Ok(index as u8),
            None => Err("invalid register name"@),
        }
    } else {
        Err("invalid register name"@)
    }
}

/// The 16-bit number that a word stands for.
pub open spec fn number_written(word: Seq<char>) -> Result<u16, Seq<char>> {
    let value = if is_hex(word) {
        parse_hex(word.skip(2), 0xFFFF)
    } else {
        parse_decimal(word, 0xFFFF)
    };
    match value {
        Some(value) => Ok(value as u16),
        None => Err("expected u16"@),
    }
}

/// The byte that a word stands for.
pub open spec fn byte_written(word: Seq<char>) -> Result<u8, Seq<char>> {
    match number_written(word) {
        Ok(value) => if value > 0xFF {
            Err("Argument must be a single byte"@)
        } else {
            Ok(value as u8)
        },
        Err(message) => Err(message),
    }
}

/// The target that the operand of a jump or a call names.
pub open spec fn target_named(word: Seq<char>) -> Result<Target, Seq<char>> {
    if word.len() > 0 && is_name_start(word[0]) {
        if is_name(word) {
            Ok(Target::Label(word))
        } else {
            Err("invalid label"@)
        }
    } else {
        match number_written(word) {
            Ok(value) => Ok(Target::Fixed(value)),
            Err(message) => Err(message),
        }
    }
}

/// One byte of a data block.
pub open spec fn data_byte(word: Seq<char>) -> Result<u8, Seq<char>> {
    if is_hex(word) {
        match parse_hex(word.skip(2), 0xFF) {
            Some(value) => Ok(value as u8),
            None => Err("invalid byte"@),
        }
    } else {
        Err("invalid byte"@)
    }
}

/// The bytes of a data block, or the failure of the first word that is no
/// byte.
pub open spec fn data_bytes(operands: Seq<Seq<char>>) -> Result<Seq<u8>, Seq<char>>
    decreases operands.len(),
{
    if operands.len() == 0 {
        Ok(Seq::empty())
    } else {
        match data_bytes(operands.drop_last()) {
            Err(message) => Err(message),
            Ok(bytes) => match data_byte(operands.last()) {
                Ok(value) => Ok(bytes.push(value)),
                Err(message) => Err(message),
            },
        }
    }
}

/// A line that holds an instruction and names no label.
pub open spec fn plain(instruction: Result<Instruction, Seq<char>>) -> Result<
    (LineView, Option<Seq<char>>),
    Seq<char>,
> {
    match instruction {
        Ok(instruction) => Ok((LineView::Instr(instruction), None)),
        Err(message) => Err(message),
    }
}

/// A jump or a call to a target. A label leaves the address 0 in the
/// instruction, to be resolved later.
pub open spec fn transfer(target: Result<Target, Seq<char>>, make: spec_fn(u16) -> Instruction) -> Result<
    (LineView, Option<Seq<char>>),
    Seq<char>,
> {
    match target {
        Ok(Target::Fixed(address)) => Ok((LineView::Instr(make(address)), None)),
        Ok(Target::Label(name)) => Ok((LineView::Instr(make(0)), Some(name))),
        Err(message) => Err(message),
    }
}

/// The instruction of an `ld` statement with the operands `a` and `b`.
pub open spec fn load(a: Seq<char>, b: Seq<char>) -> Result<Instruction, Seq<char>> {
    match place_named(lowercase(a)) {
        Some(Place::Index) => with_one(number_written(b), |n: u16| Instruction::SetMemPtr(n)),
        Some(Place::Memory) => with_one(register_named(b), |y: u8| Instruction::RegDump(y)),
        Some(Place::Delay) => with_one(register_named(b), |y: u8| Instruction::SetDelay(y)),
        Some(Place::Sound) => with_one(register_named(b), |y: u8| Instruction::SetSound(y)),
        Some(Place::Glyph) => with_one(register_named(b), |y: u8| Instruction::SetChar(y)),
        Some(Place::Digits) => with_one(register_named(b), |y: u8| Instruction::BCD(y)),
        _ => match place_named(lowercase(b)) {
            Some(Place::Delay) => with_one(register_named(a), |x: u8| Instruction::GetDelay(x)),
            Some(Place::Key) => with_one(register_named(a), |x: u8| Instruction::WaitForKey(x)),
            Some(Place::Memory) => with_one(register_named(a), |x: u8| Instruction::RegLoad(x)),
            _ => if is_marked(b) {
                with_two(
                    register_named(a),
                    register_named(b),
                    |x: u8, y: u8| Instruction::SetReg(x, y),
                )
            } else {
                with_two(
                    register_named(a),
                    byte_written(b),
                    |x: u8, y: u8| Instruction::SetImm(x, y),
                )
            },
        },
    }
}

/// Whether a keyword takes one register.
pub open spec fn is_unary(keyword: Keyword) -> bool {
    keyword is Rsh || keyword is Lsh || keyword is Skp || keyword is Sknp
}

/// The instruction of a keyword with two operands. Where the keyword names
/// an instruction on two registers and one on a register and a byte, the
/// second operand decides: a register selects the first, a number the
/// second.
pub open spec fn binary(keyword: Keyword, a: Seq<char>, b: Seq<char>) -> Result<
    Instruction,
    Seq<char>,
> {
    let x = register_named(a);
    let y = register_named(b);
    let n = byte_written(b);
    match keyword {
        Keyword::Add => if place_named(lowercase(a)) == Some(Place::Index) {
            with_one(y, |y: u8| Instruction::AddMemPtr(y))
        } else if is_marked(b) {
            with_two(x, y, |x: u8, y: u8| Instruction::AddReg(x, y))
        } else {
            with_two(x, n, |x: u8, y: u8| Instruction::AddImm(x, y))
        },
        Keyword::Se => if is_marked(b) {
            with_two(x, y, |x: u8, y: u8| Instruction::SkipEqReg(x, y))
        } else {
            with_two(x, n, |x: u8, y: u8| Instruction::SkipEqImm(x, y))
        },
        Keyword::Sne => if is_marked(b) {
            with_two(x, y, |x: u8, y: u8| Instruction::SkipNeReg(x, y))
        } else {
            with_two(x, n, |x: u8, y: u8| Instruction::SkipNeImm(x, y))
        },
        Keyword::Sub => with_two(x, y, |x: u8, y: u8| Instruction::SubReg(x, y)),
        Keyword::Or => with_two(x, y, |x: u8, y: u8| Instruction::OrReg(x, y)),
        Keyword::And => with_two(x, y, |x: u8, y: u8| Instruction::AndReg(x, y)),
        Keyword::Xor => with_two(x, y, |x: u8, y: u8| Instruction::XorReg(x, y)),
        Keyword::Subn => with_two(x, y, |x: u8, y: u8| Instruction::SubFrom(x, y)),
        Keyword::Rnd => with_two(x, n, |x: u8, y: u8| Instruction::Rand(x, y)),
        _ => Err("Unknown instruction"@),
    }
}

/// The instruction of a keyword with one register.
pub open spec fn unary(keyword: Keyword, a: Seq<char>) -> Result<Instruction, Seq<char>> {
    let x = register_named(a);
    match keyword {
        Keyword::Rsh => with_one(x, |x: u8| Instruction::Rsh(x)),
        Keyword::Lsh => with_one(x, |x: u8| Instruction::Lsh(x)),
        Keyword::Skp => with_one(x, |x: u8| Instruction::SkipKeyPressed(x)),
        Keyword::Sknp => with_one(x, |x: u8| Instruction::SkipKeyNotPressed(x)),
        _ => Err("Unknown instruction"@),
    }
}

/// The instruction of a `drw` statement.
pub open spec fn draw(a: Seq<char>, b: Seq<char>, c: Seq<char>) -> Result<Instruction, Seq<char>> {
    with_three(
        register_named(a),
        register_named(b),
        byte_written(c),
        |x: u8, y: u8, n: u8| Instruction::Draw(x, y, n),
    )
}

/// The line of a `jp` statement: a jump to a target, or with `v0` before
/// the address an indexed jump to a number.
pub open spec fn jump(operands: Seq<Seq<char>>) -> Result<(LineView, Option<Seq<char>>), Seq<char>> {
    if operands.len() == 1 {
        transfer(target_named(operands[0]), |n: u16| Instruction::Jump(n))
    } else if operands.len() == 2 {
        if lowercase(operands[0]) == "v0"@ {
            plain(with_one(number_written(operands[1]), |n: u16| Instruction::JumpOffset(n)))
        } else {
            Err("invalid register name"@)
        }
    } else {
        Err(miscounted())
    }
}

/// The line of a `call` statement.
pub open spec fn call(operands: Seq<Seq<char>>) -> Result<(LineView, Option<Seq<char>>), Seq<char>> {
    if operands.len() == 1 {
        transfer(target_named(operands[0]), |n: u16| Instruction::Call(n))
    } else {
        Err(miscounted())
    }
}

/// The failure of a statement with too few or too many operands.
pub open spec fn miscounted() -> Seq<char> {
    "wrong number of operands"@
}

/// The line that the words of an instruction or of a data block stand for.
pub open spec fn parse_line(words: Seq<Seq<char>>) -> Result<
    (LineView, Option<Seq<char>>),
    Seq<char>,
> {
    if words.len() == 0 {
        Err("Unknown instruction"@)
    } else if lowercase(words[0]) == "bytes"@ {
        match data_bytes(words.skip(1)) {
            Ok(bytes) => Ok((LineView::Data(bytes), None)),
            Err(message) => Err(message),
        }
    } else {
        let operands = words.skip(1);
        match keyword_named(lowercase(words[0])) {
            None => Err("Unknown instruction"@),
            Some(Keyword::Cls) => if operands.len() == 0 {
                plain(Ok(Instruction::ClearScreen))
            } else {
                Err(miscounted())
            },
            Some(Keyword::Ret) => if operands.len() == 0 {
                plain(Ok(Instruction::Ret))
            } else {
                Err(miscounted())
            },
            Some(Keyword::Nop) => if operands.len() == 0 {
                plain(Ok(Instruction::Nop))
            } else {
                Err(miscounted())
            },
            Some(Keyword::Jp) => jump(operands),
            Some(Keyword::Call) => call(operands),
            Some(Keyword::Ld) => if operands.len() == 2 {
                plain(load(operands[0], operands[1]))
            } else {
                Err(miscounted())
            },
            Some(Keyword::Drw) => if operands.len() == 3 {
                plain(draw(operands[0], operands[1], operands[2]))
            } else {
                Err(miscounted())
            },
            Some(keyword) => if is_unary(keyword) {
                if operands.len() == 1 {
                    plain(unary(keyword, operands[0]))
                } else {
                    Err(miscounted())
                }
            } else {
                if operands.len() == 2 {
                    plain(binary(keyword, operands[0], operands[1]))
                } else {
                    Err(miscounted())
                }
            },
        }
    }
}

/// What a statement says, or why it says nothing. The statement has no
/// white space at its start or at its end and is not empty.
pub open spec fn parse_statement(statement: Seq<char>) -> Result<Statement, Seq<char>> {
    if statement.len() > 0 && statement.last() == ':' {
        if is_name(statement.drop_last()) {
            Ok(Statement::Label(statement.drop_last()))
        } else {
            Err("invalid label"@)
        }
    } else {
        match parse_line(words(statement)) {
            Ok((line, reference)) => Ok(Statement::Line(line, reference)),
            Err(message) => Err(message),
        }
    }
}

/// A program as plain values.
#[verifier::ext_equal]
pub struct ProgramView {
    /// The lines of the program in the order of the text.
    pub instructions: Seq<LineView>,
    /// The labels, each with the number of lines before its definition.
    pub labels: Map<Seq<char>, usize>,
    /// For each line the label that its address names, if it names one.
    pub references: Seq<Option<Seq<char>>>,
}

impl ProgramView {
    /// There is one reference per line, only jumps and calls name a label,
    /// and every label stands before a line or at the end.
    pub open spec fn wf(self) -> bool {
        &&& self.references.len() == self.instructions.len()
        &&& forall|k: int|
            0 <= k < self.references.len() && (#[trigger] self.references[k]) is Some ==> (
            self.instructions[k] matches LineView::Instr(i) && (i is Jump || i is Call))
        &&& forall|name: Seq<char>|
            self.labels.dom().contains(name) ==> (#[trigger] self.labels[name])
                <= self.instructions.len()
    }
}

/// The program without lines and labels.
pub open spec fn empty_program() -> ProgramView {
    ProgramView { instructions: Seq::empty(), labels: Map::empty(), references: Seq::empty() }
}

/// A program after one more statement. A label is entered with the number
/// of lines so far, and makes no line; a later definition of the same
/// label replaces an earlier one.
pub open spec fn with_statement(program: ProgramView, statement: Statement) -> ProgramView {
    match statement {
        Statement::Label(name) => ProgramView {
            labels: program.labels.insert(name, program.instructions.len() as usize),
            ..program
        },
        Statement::Line(line, reference) => ProgramView {
            instructions: program.instructions.push(line),
            references: program.references.push(reference),
            ..program
        },
    }
}

/// A program after the statements in the pieces of one line. A piece that
/// is empty or white space holds no statement. The first statement that
/// cannot be parsed ends the parse with the index of its piece and the
/// reason.
pub open spec fn program_pieces(program: ProgramView, pieces: Seq<Seq<char>>) -> Result<
    ProgramView,
    (int, Seq<char>),
>
    decreases pieces.len(),
{
    if pieces.len() == 0 {
        Ok(program)
    } else {
        match program_pieces(program, pieces.drop_last()) {
            Err(failure) => Err(failure),
            Ok(before) => {
                let statement = trim(pieces.last());
                if statement.len() == 0 {
                    Ok(before)
                } else {
                    match parse_statement(statement) {
                        Ok(parsed) => Ok(with_statement(before, parsed)),
                        Err(message) => Err((pieces.len() - 1, message)),
                    }
                }
            },
        }
    }
}

/// The failure of the statement in the piece of index `k` of a line: the
/// statement without the white space around it, and where it stands in the
/// line.
pub open spec fn statement_failure(
    line_number: int,
    pieces: Seq<Seq<char>>,
    k: int,
    message: Seq<char>,
) -> SyntaxFailure {
    let start = (piece_start(pieces, k) + left_margin(pieces[k])) as int;
    SyntaxFailure {
        file_name: Seq::empty(),
        line_number,
        start,
        end: start + trim(pieces[k]).len(),
        mnemonic: trim(pieces[k]),
        message,
    }
}

/// The program of the given lines. A line is split into pieces at its
/// semicolons.
pub open spec fn program_lines(lines: Seq<Seq<char>>) -> Result<ProgramView, SyntaxFailure>
    decreases lines.len(),
{
    if lines.len() == 0 {
        Ok(empty_program())
    } else {
        match program_lines(lines.drop_last()) {
            Err(failure) => Err(failure),
            Ok(before) => {
                let pieces = split(lines.last(), Separator::Char(';'));
                match program_pieces(before, pieces) {
                    Ok(program) => Ok(program),
                    Err((k, message)) => Err(
                        statement_failure(lines.len() - 1, pieces, k, message),
                    ),
                }
            },
        }
    }
}

/// The program that an assembly text stands for.
pub open spec fn parsed_program(text: Seq<char>) -> Result<ProgramView, SyntaxFailure> {
    program_lines(crate::text::lines(text))
}

/// A failure in the first pieces of a line is the failure of the line.
pub proof fn lemma_program_pieces_fail(program: ProgramView, pieces: Seq<Seq<char>>, k: int)
    requires
        0 <= k <= pieces.len(),
        program_pieces(program, pieces.take(k)) is Err,
    ensures
        program_pieces(program, pieces) == program_pieces(program, pieces.take(k)),
    decreases pieces.len() - k,
{
    if k < pieces.len() {
        assert(pieces.take(k + 1).drop_last() =~= pieces.take(k));
        lemma_program_pieces_fail(program, pieces, k + 1);
    } else {
        assert(pieces.take(k) =~= pieces);
    }
}

/// A failure in the first lines of a text is the failure of the text.
pub proof fn lemma_program_lines_fail(lines: Seq<Seq<char>>, k: int)
    requires
        0 <= k <= lines.len(),
        program_lines(lines.take(k)) is Err,
    ensures
        program_lines(lines) == program_lines(lines.take(k)),
    decreases lines.len() - k,
{
    if k < lines.len() {
        assert(lines.take(k + 1).drop_last() =~= lines.take(k));
        lemma_program_lines_fail(lines, k + 1);
    } else {
        assert(lines.take(k) =~= lines);
    }
}

/// A statement keeps a program well formed: a line names a label only if
/// it is a jump or a call.
pub proof fn lemma_statement_keeps_wf(program: ProgramView, statement: Seq<char>, parsed: Statement)
    requires
        program.wf(),
        parse_statement(statement) == Ok::<Statement, Seq<char>>(parsed),
    ensures
        with_statement(program, parsed).wf(),
{
    let next = with_statement(program, parsed);
    match parsed {
        Statement::Label(name) => {
            assert forall|other: Seq<char>| next.labels.dom().contains(other) implies (
            #[trigger] next.labels[other]) <= next.instructions.len() by {
                if other != name {
                    assert(program.labels.dom().contains(other));
                }
            }
        },
        Statement::Line(line, reference) => {
            assert forall|k: int|
                0 <= k < next.references.len() && (#[trigger] next.references[k]) is Some implies (
            next.instructions[k] matches LineView::Instr(i) && (i is Jump || i is Call)) by {
                if k < program.references.len() {
                    assert(program.references[k] is Some);
                }
            }
            assert forall|other: Seq<char>| next.labels.dom().contains(other) implies (
            #[trigger] next.labels[other]) <= next.instructions.len() by {
                assert(program.labels.dom().contains(other));
            }
        },
    }
}

} // verus!
