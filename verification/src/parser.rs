//! The parser of statements: labels, instructions and data blocks.

use crate::errors::{ParseError, ParseFailure};
use crate::grammar::{
    binary, byte_written, call, data_bytes, draw, is_hex, is_marked, is_name, is_name_char,
    is_name_start, is_unary, jump, load, number_written, parse_line, parse_statement,
    register_named, target_named, unary, LineView, Statement, Target,
};
use crate::instructions::Instruction;
use crate::mnemonic::{keyword_of, place_of, Keyword, Place};
use crate::numeral::{read_decimal, read_hex};
use crate::text::{chars_of, is_word, string_of, to_lowercase, views, words_of};
use vstd::prelude::*;

verus! {

/// The parser of single statements.
pub struct InstructionParser;

/// A line of a program: an instruction or a block of literal bytes.
#[derive(Debug, Clone, PartialEq, Eq)]
pub enum Line {
    Instr(Instruction),
    Data(Vec<u8>),
}

impl View for Line {
    type V = LineView;

    open spec fn view(&self) -> LineView {
        match self {
            Line::Instr(instruction) => LineView::Instr(*instruction),
            Line::Data(bytes) => LineView::Data(bytes@),
        }
    }
}

/// What the operand of a jump or a call names.
pub enum Address {
    Fixed(u16),
    Label(Vec<char>),
}

impl View for Address {
    type V = Target;

    open spec fn view(&self) -> Target {
        match self {
            Address::Fixed(address) => Target::Fixed(*address),
            Address::Label(name) => Target::Label(name@),
        }
    }
}

/// Whether a result is the expected one: the same value on success, the
/// expected message otherwise.
pub open spec fn told<T>(result: Result<T, Vec<char>>, expected: Result<T, Seq<char>>) -> bool {
    match expected {
        Ok(value) => result == Ok::<T, Vec<char>>(value),
        Err(message) => result matches Err(said) && said@ == message,
    }
}

/// The name in an optional reference.
pub open spec fn name_of(reference: Option<Vec<char>>) -> Option<Seq<char>> {
    match reference {
        Some(name) => Some(name@),
        None => None,
    }
}

/// Whether a parsed line is the expected one.
pub open spec fn line_told(
    result: Result<(Line, Option<Vec<char>>), Vec<char>>,
    expected: Result<(LineView, Option<Seq<char>>), Seq<char>>,
) -> bool {
    match expected {
        Ok((line, reference)) => result matches Ok((found, named)) && found@ == line && name_of(
            named,
        ) == reference,
        Err(message) => result matches Err(said) && said@ == message,
    }
}

/// The characters of a word from index `from` on.
fn tail_of(word: &Vec<char>, from: usize) -> (tail: Vec<char>)
    requires
        from <= word@.len(),
    ensures
        tail@ == word@.skip(from as int),
{
    let mut tail: Vec<char> = Vec::new();
    let mut k: usize = from;
    while k < word.len()
        invariant
            from <= k <= word@.len(),
            tail@ == word@.subrange(from as int, k as int),
        decreases word@.len() - k,
    {
        tail.push(word[k]);
        assert(word@.subrange(from as int, k + 1) =~= word@.subrange(from as int, k as int).push(
            word@[k as int],
        ));
        k += 1;
    }
    assert(word@.subrange(from as int, word@.len() as int) =~= word@.skip(from as int));
    tail
}

/// Whether a word starts with the register marker.
fn has_marker(word: &Vec<char>) -> (marked: bool)
    ensures
        marked == is_marked(word@),
{
    word.len() > 0 && (word[0] == 'v' || word[0] == 'V')
}

/// Whether a word starts with the prefix of a hexadecimal number.
fn has_hex_prefix(word: &Vec<char>) -> (hex: bool)
    ensures
        hex == is_hex(word@),
{
    word.len() >= 2 && word[0] == '0' && word[1] == 'x'
}

/// Reads the name of a register.
fn register(name: &Vec<char>) -> (result: Result<u8, Vec<char>>)
    ensures
        told(result, register_named(name@)),
{
    if has_marker(name) {
        match read_decimal(&tail_of(name, 1), 0xFF) {
            Some(index) => Ok(index as u8),
            None => Err(chars_of("invalid register name")),
        }
    } else {
        Err(chars_of("invalid register name"))
    }
}

/// Reads a 16-bit number, decimal or hexadecimal.
fn parse_u16(number: &Vec<char>) -> (result: Result<u16, Vec<char>>)
    ensures
        told(result, number_written(number@)),
{
    let value = if has_hex_prefix(number) {
        read_hex(number, 2, 0xFFFF)
    } else {
        read_decimal(number, 0xFFFF)
    };
    match value {
        Some(value) => Ok(value as u16),
        None => Err(chars_of("expected u16")),
    }
}

/// Reads a byte, decimal or hexadecimal.
fn parse_u8(number: &Vec<char>) -> (result: Result<u8, Vec<char>>)
    ensures
        told(result, byte_written(number@)),
{
    let bignum = parse_u16(number)?;
    if bignum > 0xFF {
        Err(chars_of("Argument must be a single byte"))
    } else {
        Ok(bignum as u8)
    }
}

/// Whether a character can start a name.
fn starts_name(c: char) -> (starts: bool)
    ensures
        starts == is_name_start(c),
{
    ('a' <= c && c <= 'z') || ('A' <= c && c <= 'Z') || c == '_'
}

/// Whether a word is a name.
fn check_name(word: &Vec<char>) -> (named: bool)
    ensures
        named == is_name(word@),
{
    if word.len() == 0 || !starts_name(word[0]) {
        return false;
    }
    let mut k: usize = 0;
    while k < word.len()
        invariant
            k <= word@.len(),
            forall|j: int| 0 <= j < k ==> is_name_char(#[trigger] word@[j]),
        decreases word@.len() - k,
    {
        let c = word[k];
        if !(starts_name(c) || ('0' <= c && c <= '9')) {
            return false;
        }
        k += 1;
    }
    true
}

/// Reads the operand of a jump or a call: a number or the name of a label.
fn parse_addr(addr: &Vec<char>) -> (result: Result<Address, Vec<char>>)
    ensures
        match target_named(addr@) {
            Ok(target) => result matches Ok(address) && address@ == target,
            Err(message) => result matches Err(said) && said@ == message,
        },
{
    if addr.len() > 0 && starts_name(addr[0]) {
        if check_name(addr) {
            Ok(Address::Label(addr.clone()))
        } else {
            Err(chars_of("invalid label"))
        }
    } else {
        match parse_u16(addr) {
            Ok(value) => Ok(Address::Fixed(value)),
            Err(message) => Err(message),
        }
    }
}

/// The place that a word names without regard to case, if it names one.
fn place_in(word: &Vec<char>) -> (place: Option<Place>)
    ensures
        place == crate::mnemonic::place_named(crate::text::lowercase(word@)),
{
    place_of(&to_lowercase(word))
}

/// Parses the operands of an `ld` statement.
fn parse_load(a: &Vec<char>, b: &Vec<char>) -> (result: Result<Instruction, Vec<char>>)
    ensures
        told(result, load(a@, b@)),
{
    match place_in(a) {
        Some(Place::Index) => Ok(Instruction::SetMemPtr(parse_u16(b)?)),
        Some(Place::Memory) => Ok(Instruction::RegDump(register(b)?)),
        Some(Place::Delay) => Ok(Instruction::SetDelay(register(b)?)),
        Some(Place::Sound) => Ok(Instruction::SetSound(register(b)?)),
        Some(Place::Glyph) => Ok(Instruction::SetChar(register(b)?)),
        Some(Place::Digits) => Ok(Instruction::BCD(register(b)?)),
        _ => match place_in(b) {
            Some(Place::Delay) => Ok(Instruction::GetDelay(register(a)?)),
            Some(Place::Key) => Ok(Instruction::WaitForKey(register(a)?)),
            Some(Place::Memory) => Ok(Instruction::RegLoad(register(a)?)),
            _ => if has_marker(b) {
                Ok(Instruction::SetReg(register(a)?, register(b)?))
            } else {
                Ok(Instruction::SetImm(register(a)?, parse_u8(b)?))
            },
        },
    }
}

/// Parses the operands of a keyword that takes two.
fn parse_binop(keyword: Keyword, a: &Vec<char>, b: &Vec<char>) -> (result: Result<
    Instruction,
    Vec<char>,
>)
    ensures
        told(result, binary(keyword, a@, b@)),
{
    if matches!(keyword, Keyword::Add) {
        if place_in(a) == Some(Place::Index) {
            return Ok(Instruction::AddMemPtr(register(b)?));
        }
    }
    match keyword {
        Keyword::Add => if has_marker(b) {
            Ok(Instruction::AddReg(register(a)?, register(b)?))
        } else {
            Ok(Instruction::AddImm(register(a)?, parse_u8(b)?))
        },
        Keyword::Se => if has_marker(b) {
            Ok(Instruction::SkipEqReg(register(a)?, register(b)?))
        } else {
            Ok(Instruction::SkipEqImm(register(a)?, parse_u8(b)?))
        },
        Keyword::Sne => if has_marker(b) {
            Ok(Instruction::SkipNeReg(register(a)?, register(b)?))
        } else {
            Ok(Instruction::SkipNeImm(register(a)?, parse_u8(b)?))
        },
        Keyword::Sub => Ok(Instruction::SubReg(register(a)?, register(b)?)),
        Keyword::Or => Ok(Instruction::OrReg(register(a)?, register(b)?)),
        Keyword::And => Ok(Instruction::AndReg(register(a)?, register(b)?)),
        Keyword::Xor => Ok(Instruction::XorReg(register(a)?, register(b)?)),
        Keyword::Subn => Ok(Instruction::SubFrom(register(a)?, register(b)?)),
        Keyword::Rnd => Ok(Instruction::Rand(register(a)?, parse_u8(b)?)),
        _ => Err(chars_of("Unknown instruction")),
    }
}

/// Parses the operand of a keyword that takes one register.
fn parse_unop(keyword: Keyword, a: &Vec<char>) -> (result: Result<Instruction, Vec<char>>)
    requires
        is_unary(keyword),
    ensures
        told(result, unary(keyword, a@)),
{
    let reg = register(a)?;
    match keyword {
        Keyword::Rsh => Ok(Instruction::Rsh(reg)),
        Keyword::Lsh => Ok(Instruction::Lsh(reg)),
        Keyword::Skp => Ok(Instruction::SkipKeyPressed(reg)),
        Keyword::Sknp => Ok(Instruction::SkipKeyNotPressed(reg)),
        _ => Err(chars_of("Unknown instruction")),
    }
}

/// Parses the operands of a `drw` statement.
fn parse_draw(a: &Vec<char>, b: &Vec<char>, c: &Vec<char>) -> (result: Result<
    Instruction,
    Vec<char>,
>)
    ensures
        told(result, draw(a@, b@, c@)),
{
    let r1 = register(a)?;
    let r2 = register(b)?;
    let n = parse_u8(c)?;
    Ok(Instruction::Draw(r1, r2, n))
}

/// Parses a `call` statement.
fn parse_call(words: &Vec<Vec<char>>) -> (result: Result<(Line, Option<Vec<char>>), Vec<char>>)
    requires
        words@.len() >= 1,
    ensures
        line_told(result, call(views(words@).skip(1))),
{
    proof {
        lemma_operands(words@);
    }
    if words.len() != 2 {
        return Err(chars_of("wrong number of operands"));
    }
    match parse_addr(&words[1]) {
        Ok(Address::Fixed(address)) => Ok((Line::Instr(Instruction::Call(address)), None)),
        Ok(Address::Label(name)) => Ok((Line::Instr(Instruction::Call(0)), Some(name))),
        Err(message) => Err(message),
    }
}

/// Parses a `jp` statement.
fn parse_jump(words: &Vec<Vec<char>>) -> (result: Result<(Line, Option<Vec<char>>), Vec<char>>)
    requires
        words@.len() >= 1,
    ensures
        line_told(result, jump(views(words@).skip(1))),
{
    proof {
        lemma_operands(words@);
    }
    if words.len() == 2 {
        match parse_addr(&words[1]) {
            Ok(Address::Fixed(address)) => Ok((Line::Instr(Instruction::Jump(address)), None)),
            Ok(Address::Label(name)) => Ok((Line::Instr(Instruction::Jump(0)), Some(name))),
            Err(message) => Err(message),
        }
    } else if words.len() == 3 {
        if is_word(&to_lowercase(&words[1]), "v0") {
            match parse_u16(&words[2]) {
                Ok(address) => Ok((Line::Instr(Instruction::JumpOffset(address)), None)),
                Err(message) => Err(message),
            }
        } else {
            Err(chars_of("invalid register name"))
        }
    } else {
        Err(chars_of("wrong number of operands"))
    }
}

/// The operands of a statement are its words after the first.
proof fn lemma_operands(words: Seq<Vec<char>>)
    requires
        words.len() >= 1,
    ensures
        views(words).skip(1).len() == words.len() - 1,
        forall|k: int| 0 <= k < words.len() - 1 ==> #[trigger] views(words).skip(1)[k] == words[k + 1]@,
{
}

/// Parses the bytes of a `bytes` statement.
fn parse_bytes(words: &Vec<Vec<char>>) -> (result: Result<Vec<u8>, Vec<char>>)
    requires
        words@.len() >= 1,
    ensures
        match data_bytes(views(words@).skip(1)) {
            Ok(bytes) => result matches Ok(found) && found@ == bytes,
            Err(message) => result matches Err(said) && said@ == message,
        },
{
    let ghost operands = views(words@).skip(1);
    proof {
        lemma_operands(words@);
    }
    let mut bytes: Vec<u8> = Vec::new();
    let mut k: usize = 1;
    assert(operands.take(0) =~= Seq::<Seq<char>>::empty());
    while k < words.len()
        invariant
            1 <= k <= words@.len(),
            operands == views(words@).skip(1),
            data_bytes(operands.take(k - 1)) == Ok::<Seq<u8>, Seq<char>>(bytes@),
        decreases words@.len() - k,
    {
        let word = &words[k];
        proof {
            lemma_operands(words@);
            assert(operands.take(k as int).drop_last() =~= operands.take(k - 1));
            assert(operands.take(k as int).last() == word@);
        }
        let value = if has_hex_prefix(word) {
            read_hex(word, 2, 0xFF)
        } else {
            None
        };
        match value {
            Some(value) => {
                bytes.push(value as u8);
            },
            None => {
                proof {
                    lemma_data_bytes_fail(operands, k as int);
                }
                return Err(chars_of("invalid byte"));
            },
        }
        k += 1;
    }
    assert(operands.take(operands.len() as int) =~= operands);
    Ok(bytes)
}

/// A word that is no byte fails the whole block.
pub proof fn lemma_data_bytes_fail(operands: Seq<Seq<char>>, k: int)
    requires
        0 <= k <= operands.len(),
        data_bytes(operands.take(k)) is Err,
    ensures
        data_bytes(operands) == data_bytes(operands.take(k)),
    decreases operands.len() - k,
{
    if k < operands.len() {
        assert(operands.take(k + 1).drop_last() =~= operands.take(k));
        lemma_data_bytes_fail(operands, k + 1);
    } else {
        assert(operands.take(k) =~= operands);
    }
}

/// A line that holds an instruction and names no label.
fn plain_line(instruction: Result<Instruction, Vec<char>>) -> (result: Result<
    (Line, Option<Vec<char>>),
    Vec<char>,
>)
    ensures
        forall|expected: Result<Instruction, Seq<char>>|
            told(instruction, expected) ==> line_told(result, crate::grammar::plain(expected)),
{
    match instruction {
        Ok(instruction) => Ok((Line::Instr(instruction), None)),
        Err(message) => Err(message),
    }
}

/// Parses the words of an instruction or of a data block.
fn parse_instruction(words: &Vec<Vec<char>>) -> (result: Result<(Line, Option<Vec<char>>), Vec<char>>)
    ensures
        line_told(result, parse_line(views(words@))),
{
    if words.len() == 0 {
        return Err(chars_of("Unknown instruction"));
    }
    proof {
        lemma_operands(words@);
    }
    let head = to_lowercase(&words[0]);
    if is_word(&head, "bytes") {
        return match parse_bytes(words) {
            Ok(bytes) => Ok((Line::Data(bytes), None)),
            Err(message) => Err(message),
        };
    }
    let count = words.len() - 1;
    match keyword_of(&head) {
        None => Err(chars_of("Unknown instruction")),
        Some(Keyword::Cls) => if count == 0 {
            Ok((Line::Instr(Instruction::ClearScreen), None))
        } else {
            Err(chars_of("wrong number of operands"))
        },
        Some(Keyword::Ret) => if count == 0 {
            Ok((Line::Instr(Instruction::Ret), None))
        } else {
            Err(chars_of("wrong number of operands"))
        },
        Some(Keyword::Nop) => if count == 0 {
            Ok((Line::Instr(Instruction::Nop), None))
        } else {
            Err(chars_of("wrong number of operands"))
        },
        Some(Keyword::Jp) => parse_jump(words),
        Some(Keyword::Call) => parse_call(words),
        Some(Keyword::Ld) => if count == 2 {
            plain_line(parse_load(&words[1], &words[2]))
        } else {
            Err(chars_of("wrong number of operands"))
        },
        Some(Keyword::Drw) => if count == 3 {
            plain_line(parse_draw(&words[1], &words[2], &words[3]))
        } else {
            Err(chars_of("wrong number of operands"))
        },
        Some(keyword) => if matches!(
            keyword,
            Keyword::Rsh | Keyword::Lsh | Keyword::Skp | Keyword::Sknp
        ) {
            if count == 1 {
                plain_line(parse_unop(keyword, &words[1]))
            } else {
                Err(chars_of("wrong number of operands"))
            }
        } else {
            if count == 2 {
                plain_line(parse_binop(keyword, &words[1], &words[2]))
            } else {
                Err(chars_of("wrong number of operands"))
            }
        },
    }
}

/// What a statement says.
pub enum Parsed {
    /// The definition of the label of that name.
    Label(String),
    /// A line of the program and, where its address is the name of a
    /// label, that name.
    Line(Line, Option<String>),
}

impl View for Parsed {
    type V = Statement;

    open spec fn view(&self) -> Statement {
        match self {
            Parsed::Label(name) => Statement::Label(name@),
            Parsed::Line(line, reference) => Statement::Line(line@, text_of(*reference)),
        }
    }
}

/// The text of an optional string.
pub open spec fn text_of(reference: Option<String>) -> Option<Seq<char>> {
    match reference {
        Some(name) => Some(name@),
        None => None,
    }
}

/// Parses a statement that has no white space around it.
pub(crate) fn parse_trimmed(statement: &Vec<char>) -> (result: Result<Parsed, Vec<char>>)
    ensures
        match parse_statement(statement@) {
            Ok(expected) => result matches Ok(parsed) && parsed@ == expected,
            Err(message) => result matches Err(said) && said@ == message,
        },
{
    if statement.len() > 0 && statement[statement.len() - 1] == ':' {
        let mut name = statement.clone();
        name.pop();
        assert(name@ =~= statement@.drop_last());
        if check_name(&name) {
            Ok(Parsed::Label(string_of(&name)))
        } else {
            Err(chars_of("invalid label"))
        }
    } else {
        match parse_instruction(&words_of(statement)) {
            Ok((line, reference)) => {
                let reference = match reference {
                    Some(name) => Some(string_of(&name)),
                    None => None,
                };
                Ok(Parsed::Line(line, reference))
            },
            Err(message) => Err(message),
        }
    }
}

impl InstructionParser {
    /// Parses one statement: a label, an instruction or a block of data.
    /// White space around the statement does not count. The error carries
    /// the statement without that white space, and the reason.
    pub fn parse(statement: &str) -> (result: Result<Parsed, ParseError>)
        ensures
            match parse_statement(crate::text::trim(statement@)) {
                Ok(expected) => result matches Ok(parsed) && parsed@ == expected,
                Err(message) => result matches Err(error) && error@ == (ParseFailure {
                    mnemonic: crate::text::trim(statement@),
                    message,
                }),
            },
    {
        let trimmed = crate::text::trimmed(&chars_of(statement));
        match parse_trimmed(&trimmed) {
            Ok(parsed) => Ok(parsed),
            Err(message) => Err(
                ParseError { mnemonic: string_of(&trimmed), message: string_of(&message) },
            ),
        }
    }
}

} // verus!
