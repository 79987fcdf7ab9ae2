//! The textual form of instructions: printing and parsing mnemonics.
//!
//! A mnemonic is a keyword followed by up to three operands, separated by
//! single white space characters. Keywords are matched without regard to
//! ASCII case. An operand is a decimal number, which the register marker `v`
//! may precede. Where one keyword names several instructions, the shape of
//! the operands decides: an operand that starts with the register marker
//! selects the instruction on two registers, any other the instruction with
//! an immediate.

use crate::errors::{agrees, ParseError, ParseFailure};
use crate::instructions::Instruction;
use crate::numeral::{decimal, parse_decimal, push_decimal, read_decimal};
use crate::text::{
    append_chars, chars_of, is_word, join, join_words, lowercase, split, split_text, string_of,
    to_lowercase, views, Separator,
};
use vstd::prelude::*;

verus! {

/// An operand without the register marker, if it has one.
pub open spec fn unmarked(word: Seq<char>) -> Seq<char> {
    if word.len() > 0 && word[0] == 'v' {
        word.skip(1)
    } else {
        word
    }
}

/// Whether the operand at `index` exists and starts with the register
/// marker.
pub open spec fn register_shaped(words: Seq<Seq<char>>, index: int) -> bool {
    index < words.len() && words[index].len() > 0 && words[index][0] == 'v'
}

/// The failure for a mnemonic whose words are `words`.
pub open spec fn failure(words: Seq<Seq<char>>, message: Seq<char>) -> ParseFailure {
    ParseFailure { mnemonic: join(words, seq![' ']), message }
}

/// The number in the operand at `index`, which must be at most `max`.
pub open spec fn argument(words: Seq<Seq<char>>, index: int, max: nat) -> Result<
    nat,
    ParseFailure,
> {
    if index < words.len() {
        match parse_decimal(unmarked(words[index]), max) {
            Some(value) => Ok(value),
            None => Err(failure(words, "Couldn't parse value "@ + unmarked(words[index]))),
        }
    } else {
        Err(failure(words, "Missing argument "@ + decimal(index as nat)))
    }
}

/// The byte in the operand at `index`.
pub open spec fn byte_argument(words: Seq<Seq<char>>, index: int) -> Result<u8, ParseFailure> {
    match argument(words, index, 0xFF) {
        Ok(value) => Ok(value as u8),
        Err(failure) => Err(failure),
    }
}

/// The 16-bit number in the operand at `index`.
pub open spec fn address_argument(words: Seq<Seq<char>>, index: int) -> Result<u16, ParseFailure> {
    match argument(words, index, 0xFFFF) {
        Ok(value) => Ok(value as u16),
        Err(failure) => Err(failure),
    }
}

/// An instruction made from one operand, or the operand's failure.
pub open spec fn with_one<T, E>(x: Result<T, E>, make: spec_fn(T) -> Instruction) -> Result<
    Instruction,
    E,
> {
    match x {
        Ok(x) => Ok(make(x)),
        Err(failure) => Err(failure),
    }
}

/// An instruction made from two operands, or the failure of the first
/// operand that has one.
pub open spec fn with_two<E>(
    x: Result<u8, E>,
    y: Result<u8, E>,
    make: spec_fn(u8, u8) -> Instruction,
) -> Result<Instruction, E> {
    match x {
        Ok(x) => match y {
            Ok(y) => Ok(make(x, y)),
            Err(failure) => Err(failure),
        },
        Err(failure) => Err(failure),
    }
}

/// An instruction made from three operands, or the failure of the first
/// operand that has one.
pub open spec fn with_three<E>(
    x: Result<u8, E>,
    y: Result<u8, E>,
    z: Result<u8, E>,
    make: spec_fn(u8, u8, u8) -> Instruction,
) -> Result<Instruction, E> {
    match x {
        Ok(x) => match y {
            Ok(y) => match z {
                Ok(z) => Ok(make(x, y, z)),
                Err(failure) => Err(failure),
            },
            Err(failure) => Err(failure),
        },
        Err(failure) => Err(failure),
    }
}

/// The keywords of the assembly language.
#[derive(Debug, Clone, Copy, PartialEq, Eq, Structural)]
pub enum Keyword {
    /// `cls`
    Cls,
    /// `ret`
    Ret,
    /// `nop`
    Nop,
    /// `jp`
    Jp,
    /// `call`
    Call,
    /// `se`
    Se,
    /// `sne`
    Sne,
    /// `ld`
    Ld,
    /// `add`
    Add,
    /// `or`
    Or,
    /// `and`
    And,
    /// `xor`
    Xor,
    /// `sub`
    Sub,
    /// `rsh`
    Rsh,
    /// `subn`
    Subn,
    /// `lsh`
    Lsh,
    /// `rnd`
    Rnd,
    /// `drw`
    Drw,
    /// `skp`
    Skp,
    /// `sknp`
    Sknp,
}

/// The names that stand in the place of an operand of `ld` and `add`.
#[derive(Debug, Clone, Copy, PartialEq, Eq, Structural)]
pub enum Place {
    /// `i`: the address register.
    Index,
    /// `[i]`: the memory that the address register points at.
    Memory,
    /// `dt`: the delay timer.
    Delay,
    /// `st`: the sound timer.
    Sound,
    /// `f`: the glyph of a register.
    Glyph,
    /// `b`: the decimal digits of a register.
    Digits,
    /// `k`: the next key that is pressed.
    Key,
}

/// The keyword that a word in small letters is, if it is one.
pub open spec fn keyword_named(word: Seq<char>) -> Option<Keyword> {
    if word == "cls"@ {
        Some(Keyword::Cls)
    } else if word == "ret"@ {
        Some(Keyword::Ret)
    } else if word == "nop"@ {
        Some(Keyword::Nop)
    } else if word == "jp"@ {
        Some(Keyword::Jp)
    } else if word == "call"@ {
        Some(Keyword::Call)
    } else if word == "se"@ {
        Some(Keyword::Se)
    } else if word == "sne"@ {
        Some(Keyword::Sne)
    } else if word == "ld"@ {
        Some(Keyword::Ld)
    } else if word == "add"@ {
        Some(Keyword::Add)
    } else if word == "or"@ {
        Some(Keyword::Or)
    } else if word == "and"@ {
        Some(Keyword::And)
    } else if word == "xor"@ {
        Some(Keyword::Xor)
    } else if word == "sub"@ {
        Some(Keyword::Sub)
    } else if word == "rsh"@ {
        Some(Keyword::Rsh)
    } else if word == "subn"@ {
        Some(Keyword::Subn)
    } else if word == "lsh"@ {
        Some(Keyword::Lsh)
    } else if word == "rnd"@ {
        Some(Keyword::Rnd)
    } else if word == "drw"@ {
        Some(Keyword::Drw)
    } else if word == "skp"@ {
        Some(Keyword::Skp)
    } else if word == "sknp"@ {
        Some(Keyword::Sknp)
    } else {
        None
    }
}

/// The place that a word in small letters names, if it names one.
pub open spec fn place_named(word: Seq<char>) -> Option<Place> {
    if word == "i"@ {
        Some(Place::Index)
    } else if word == "[i]"@ {
        Some(Place::Memory)
    } else if word == "dt"@ {
        Some(Place::Delay)
    } else if word == "st"@ {
        Some(Place::Sound)
    } else if word == "f"@ {
        Some(Place::Glyph)
    } else if word == "b"@ {
        Some(Place::Digits)
    } else if word == "k"@ {
        Some(Place::Key)
    } else {
        None
    }
}

/// The keyword of a mnemonic: what its first word is.
pub open spec fn keyword_at(words: Seq<Seq<char>>) -> Option<Keyword> {
    if 0 < words.len() {
        keyword_named(words[0])
    } else {
        None
    }
}

/// The place that the operand at `index` names, if there is such an
/// operand and it names one.
pub open spec fn place_at(words: Seq<Seq<char>>, index: int) -> Option<Place> {
    if index < words.len() {
        place_named(words[index])
    } else {
        None
    }
}

/// The instruction that an `ld` mnemonic stands for.
pub open spec fn parse_load(words: Seq<Seq<char>>) -> Result<Instruction, ParseFailure> {
    let x = byte_argument(words, 1);
    let y = byte_argument(words, 2);
    match place_at(words, 1) {
        Some(Place::Index) => with_one(
            address_argument(words, 2),
            |a: u16| Instruction::SetMemPtr(a),
        ),
        Some(Place::Memory) => with_one(y, |y: u8| Instruction::RegDump(y)),
        Some(Place::Delay) => with_one(y, |y: u8| Instruction::SetDelay(y)),
        Some(Place::Sound) => with_one(y, |y: u8| Instruction::SetSound(y)),
        Some(Place::Glyph) => with_one(y, |y: u8| Instruction::SetChar(y)),
        Some(Place::Digits) => with_one(y, |y: u8| Instruction::BCD(y)),
        _ => match place_at(words, 2) {
            Some(Place::Delay) => with_one(x, |x: u8| Instruction::GetDelay(x)),
            Some(Place::Key) => with_one(x, |x: u8| Instruction::WaitForKey(x)),
            Some(Place::Memory) => with_one(x, |x: u8| Instruction::RegLoad(x)),
            _ => if register_shaped(words, 2) {
                with_two(x, y, |x: u8, y: u8| Instruction::SetReg(x, y))
            } else {
                with_two(x, y, |x: u8, y: u8| Instruction::SetImm(x, y))
            },
        },
    }
}

/// The instruction that the words of a mnemonic stand for. `text` is the
/// mnemonic as it was written, `words` its words in small letters.
pub open spec fn parse_words(text: Seq<char>, words: Seq<Seq<char>>) -> Result<
    Instruction,
    ParseFailure,
> {
    let x = byte_argument(words, 1);
    let y = byte_argument(words, 2);
    let z = byte_argument(words, 3);
    match keyword_at(words) {
        None => Err(ParseFailure { mnemonic: text, message: "Unknown instruction"@ }),
        Some(Keyword::Cls) => Ok(Instruction::ClearScreen),
        Some(Keyword::Ret) => Ok(Instruction::Ret),
        Some(Keyword::Nop) => Ok(Instruction::Nop),
        Some(Keyword::Jp) => if words.len() <= 2 {
            with_one(address_argument(words, 1), |a: u16| Instruction::Jump(a))
        } else {
            with_one(address_argument(words, 2), |a: u16| Instruction::JumpOffset(a))
        },
        Some(Keyword::Call) => with_one(address_argument(words, 1), |a: u16| Instruction::Call(a)),
        Some(Keyword::Se) => if register_shaped(words, 2) {
            with_two(x, y, |x: u8, y: u8| Instruction::SkipEqReg(x, y))
        } else {
            with_two(x, y, |x: u8, y: u8| Instruction::SkipEqImm(x, y))
        },
        Some(Keyword::Sne) => if register_shaped(words, 2) {
            with_two(x, y, |x: u8, y: u8| Instruction::SkipNeReg(x, y))
        } else {
            with_two(x, y, |x: u8, y: u8| Instruction::SkipNeImm(x, y))
        },
        Some(Keyword::Ld) => parse_load(words),
        Some(Keyword::Add) => if place_at(words, 1) == Some(Place::Index) {
            with_one(y, |y: u8| Instruction::AddMemPtr(y))
        } else if register_shaped(words, 2) {
            with_two(x, y, |x: u8, y: u8| Instruction::AddReg(x, y))
        } else {
            with_two(x, y, |x: u8, y: u8| Instruction::AddImm(x, y))
        },
        Some(Keyword::Or) => with_two(x, y, |x: u8, y: u8| Instruction::OrReg(x, y)),
        Some(Keyword::And) => with_two(x, y, |x: u8, y: u8| Instruction::AndReg(x, y)),
        Some(Keyword::Xor) => with_two(x, y, |x: u8, y: u8| Instruction::XorReg(x, y)),
        Some(Keyword::Sub) => with_two(x, y, |x: u8, y: u8| Instruction::SubReg(x, y)),
        Some(Keyword::Rsh) => with_one(x, |x: u8| Instruction::Rsh(x)),
        Some(Keyword::Subn) => with_two(x, y, |x: u8, y: u8| Instruction::SubFrom(x, y)),
        Some(Keyword::Lsh) => with_one(x, |x: u8| Instruction::Lsh(x)),
        Some(Keyword::Rnd) => with_two(x, y, |x: u8, y: u8| Instruction::Rand(x, y)),
        Some(Keyword::Drw) => with_three(
            x,
            y,
            z,
            |x: u8, y: u8, z: u8| Instruction::Draw(x, y, z),
        ),
        Some(Keyword::Skp) => with_one(x, |x: u8| Instruction::SkipKeyPressed(x)),
        Some(Keyword::Sknp) => with_one(x, |x: u8| Instruction::SkipKeyNotPressed(x)),
    }
}

/// The instruction that a mnemonic stands for, or why it stands for none.
/// The text is put in small letters and split at every white space
/// character; the first word is the keyword.
pub open spec fn parse_mnemonic(text: Seq<char>) -> Result<Instruction, ParseFailure> {
    parse_words(text, split(lowercase(text), Separator::Space))
}

/// Reads the number in the operand at `index`.
fn get_arg(words: &Vec<Vec<char>>, index: usize, max: u32) -> (result: Result<u32, ParseError>)
    ensures
        match argument(views(words@), index as int, max as nat) {
            Ok(value) => result == Ok::<u32, ParseError>(value as u32),
            Err(failure) => result matches Err(error) && error@ == failure,
        },
{
    let space: Vec<char> = vec![' '];
    assert(space@ =~= seq![' ']);
    if index < words.len() {
        let word = &words[index];
        let mut numeral: Vec<char> = Vec::new();
        let from: usize = if word.len() > 0 && word[0] == 'v' { 1 } else { 0 };
        let mut k: usize = from;
        while k < word.len()
            invariant
                from <= k <= word@.len(),
                numeral@ == word@.subrange(from as int, k as int),
            decreases word@.len() - k,
        {
            numeral.push(word[k]);
            assert(word@.subrange(from as int, k + 1) =~= word@.subrange(from as int, k as int).push(
                word@[k as int],
            ));
            k += 1;
        }
        assert(numeral@ =~= unmarked(word@));
        match read_decimal(&numeral, max) {
            Some(value) => Ok(value),
            None => {
                let mut message = chars_of("Couldn't parse value ");
                append_chars(&mut message, &numeral);
                Err(
                    ParseError {
                        mnemonic: string_of(&join_words(words, &space)),
                        message: string_of(&message),
                    },
                )
            },
        }
    } else {
        let mut message = chars_of("Missing argument ");
        push_decimal(&mut message, index as u64);
        Err(
            ParseError {
                mnemonic: string_of(&join_words(words, &space)),
                message: string_of(&message),
            },
        )
    }
}

/// Reads the byte in the operand at `index`.
fn get_byte(words: &Vec<Vec<char>>, index: usize) -> (result: Result<u8, ParseError>)
    ensures
        agrees(result, byte_argument(views(words@), index as int)),
{
    match get_arg(words, index, 0xFF) {
        Ok(value) => Ok(value as u8),
        Err(error) => Err(error),
    }
}

/// Reads the 16-bit number in the operand at `index`.
fn get_address(words: &Vec<Vec<char>>, index: usize) -> (result: Result<u16, ParseError>)
    ensures
        agrees(result, address_argument(views(words@), index as int)),
{
    match get_arg(words, index, 0xFFFF) {
        Ok(value) => Ok(value as u16),
        Err(error) => Err(error),
    }
}

/// Whether the operand at `index` exists and starts with the register
/// marker.
fn is_register_shaped(words: &Vec<Vec<char>>, index: usize) -> (shaped: bool)
    ensures
        shaped == register_shaped(views(words@), index as int),
{
    index < words.len() && words[index].len() > 0 && words[index][0] == 'v'
}

/// The keyword that a word in small letters is, if it is one.
pub fn keyword_of(word: &Vec<char>) -> (keyword: Option<Keyword>)
    ensures
        keyword == keyword_named(word@),
{
    if is_word(word, "cls") {
        Some(Keyword::Cls)
    } else if is_word(word, "ret") {
        Some(Keyword::Ret)
    } else if is_word(word, "nop") {
        Some(Keyword::Nop)
    } else if is_word(word, "jp") {
        Some(Keyword::Jp)
    } else if is_word(word, "call") {
        Some(Keyword::Call)
    } else if is_word(word, "se") {
        Some(Keyword::Se)
    } else if is_word(word, "sne") {
        Some(Keyword::Sne)
    } else if is_word(word, "ld") {
        Some(Keyword::Ld)
    } else if is_word(word, "add") {
        Some(Keyword::Add)
    } else if is_word(word, "or") {
        Some(Keyword::Or)
    } else if is_word(word, "and") {
        Some(Keyword::And)
    } else if is_word(word, "xor") {
        Some(Keyword::Xor)
    } else if is_word(word, "sub") {
        Some(Keyword::Sub)
    } else if is_word(word, "rsh") {
        Some(Keyword::Rsh)
    } else if is_word(word, "subn") {
        Some(Keyword::Subn)
    } else if is_word(word, "lsh") {
        Some(Keyword::Lsh)
    } else if is_word(word, "rnd") {
        Some(Keyword::Rnd)
    } else if is_word(word, "drw") {
        Some(Keyword::Drw)
    } else if is_word(word, "skp") {
        Some(Keyword::Skp)
    } else if is_word(word, "sknp") {
        Some(Keyword::Sknp)
    } else {
        None
    }
}

/// The place that a word in small letters names, if it names one.
pub fn place_of(word: &Vec<char>) -> (place: Option<Place>)
    ensures
        place == place_named(word@),
{
    if is_word(word, "i") {
        Some(Place::Index)
    } else if is_word(word, "[i]") {
        Some(Place::Memory)
    } else if is_word(word, "dt") {
        Some(Place::Delay)
    } else if is_word(word, "st") {
        Some(Place::Sound)
    } else if is_word(word, "f") {
        Some(Place::Glyph)
    } else if is_word(word, "b") {
        Some(Place::Digits)
    } else if is_word(word, "k") {
        Some(Place::Key)
    } else {
        None
    }
}

/// The place that the operand at `index` names, if there is such an
/// operand and it names one.
fn get_place(words: &Vec<Vec<char>>, index: usize) -> (place: Option<Place>)
    ensures
        place == place_at(views(words@), index as int),
{
    if index < words.len() {
        place_of(&words[index])
    } else {
        None
    }
}

/// Parses the words of an `ld` mnemonic.
fn load_from_words(words: &Vec<Vec<char>>) -> (result: Result<Instruction, ParseError>)
    ensures
        agrees(result, parse_load(views(words@))),
{
    match get_place(words, 1) {
        Some(Place::Index) => Ok(Instruction::SetMemPtr(get_address(words, 2)?)),
        Some(Place::Memory) => Ok(Instruction::RegDump(get_byte(words, 2)?)),
        Some(Place::Delay) => Ok(Instruction::SetDelay(get_byte(words, 2)?)),
        Some(Place::Sound) => Ok(Instruction::SetSound(get_byte(words, 2)?)),
        Some(Place::Glyph) => Ok(Instruction::SetChar(get_byte(words, 2)?)),
        Some(Place::Digits) => Ok(Instruction::BCD(get_byte(words, 2)?)),
        _ => match get_place(words, 2) {
            Some(Place::Delay) => Ok(Instruction::GetDelay(get_byte(words, 1)?)),
            Some(Place::Key) => Ok(Instruction::WaitForKey(get_byte(words, 1)?)),
            Some(Place::Memory) => Ok(Instruction::RegLoad(get_byte(words, 1)?)),
            _ => if is_register_shaped(words, 2) {
                Ok(Instruction::SetReg(get_byte(words, 1)?, get_byte(words, 2)?))
            } else {
                Ok(Instruction::SetImm(get_byte(words, 1)?, get_byte(words, 2)?))
            },
        },
    }
}

impl Instruction {
    /// Parses a mnemonic. A missing operand or a numeral that cannot be read
    /// is an error that carries the mnemonic, in small letters with its
    /// words joined by single spaces, and a message; an unknown keyword is
    /// an error that carries the mnemonic as it was written.
    pub fn from_mnemonic(mnemonic: &str) -> (result: Result<Instruction, ParseError>)
        ensures
            agrees(result, parse_mnemonic(mnemonic@)),
    {
        let lower = to_lowercase(&chars_of(mnemonic));
        let words = split_text(&lower, Separator::Space);
        match keyword_of(&words[0]) {
            None => Err(ParseError::new(mnemonic, "Unknown instruction")),
            Some(Keyword::Cls) => Ok(Instruction::ClearScreen),
            Some(Keyword::Ret) => Ok(Instruction::Ret),
            Some(Keyword::Nop) => Ok(Instruction::Nop),
            Some(Keyword::Jp) => if words.len() <= 2 {
                Ok(Instruction::Jump(get_address(&words, 1)?))
            } else {
                Ok(Instruction::JumpOffset(get_address(&words, 2)?))
            },
            Some(Keyword::Call) => Ok(Instruction::Call(get_address(&words, 1)?)),
            Some(Keyword::Se) => if is_register_shaped(&words, 2) {
                Ok(Instruction::SkipEqReg(get_byte(&words, 1)?, get_byte(&words, 2)?))
            } else {
                Ok(Instruction::SkipEqImm(get_byte(&words, 1)?, get_byte(&words, 2)?))
            },
            Some(Keyword::Sne) => if is_register_shaped(&words, 2) {
                Ok(Instruction::SkipNeReg(get_byte(&words, 1)?, get_byte(&words, 2)?))
            } else {
                Ok(Instruction::SkipNeImm(get_byte(&words, 1)?, get_byte(&words, 2)?))
            },
            Some(Keyword::Ld) => load_from_words(&words),
            Some(Keyword::Add) => if get_place(&words, 1) == Some(Place::Index) {
                Ok(Instruction::AddMemPtr(get_byte(&words, 2)?))
            } else if is_register_shaped(&words, 2) {
                Ok(Instruction::AddReg(get_byte(&words, 1)?, get_byte(&words, 2)?))
            } else {
                Ok(Instruction::AddImm(get_byte(&words, 1)?, get_byte(&words, 2)?))
            },
            Some(Keyword::Or) => Ok(Instruction::OrReg(get_byte(&words, 1)?, get_byte(&words, 2)?)),
            Some(Keyword::And) => Ok(
                Instruction::AndReg(get_byte(&words, 1)?, get_byte(&words, 2)?),
            ),
            Some(Keyword::Xor) => Ok(
                Instruction::XorReg(get_byte(&words, 1)?, get_byte(&words, 2)?),
            ),
            Some(Keyword::Sub) => Ok(
                Instruction::SubReg(get_byte(&words, 1)?, get_byte(&words, 2)?),
            ),
            Some(Keyword::Rsh) => Ok(Instruction::Rsh(get_byte(&words, 1)?)),
            Some(Keyword::Subn) => Ok(
                Instruction::SubFrom(get_byte(&words, 1)?, get_byte(&words, 2)?),
            ),
            Some(Keyword::Lsh) => Ok(Instruction::Lsh(get_byte(&words, 1)?)),
            Some(Keyword::Rnd) => Ok(Instruction::Rand(get_byte(&words, 1)?, get_byte(&words, 2)?)),
            Some(Keyword::Drw) => Ok(
                Instruction::Draw(
                    get_byte(&words, 1)?,
                    get_byte(&words, 2)?,
                    get_byte(&words, 3)?,
                ),
            ),
            Some(Keyword::Skp) => Ok(Instruction::SkipKeyPressed(get_byte(&words, 1)?)),
            Some(Keyword::Sknp) => Ok(Instruction::SkipKeyNotPressed(get_byte(&words, 1)?)),
        }
    }
}

/// A number with the register marker before it, as mnemonics are printed.
pub open spec fn marked(n: nat) -> Seq<char> {
    seq!['V'] + decimal(n)
}

/// The words of the mnemonic that an instruction is printed as.
pub open spec fn mnemonic_words(instruction: Instruction) -> Seq<Seq<char>> {
    match instruction {
        Instruction::Nop => seq!["NOP"@],
        Instruction::ClearScreen => seq!["CLS"@],
        Instruction::Ret => seq!["RET"@],
        Instruction::Jump(a) => seq!["JP"@, decimal(a as nat)],
        Instruction::Call(a) => seq!["CALL"@, marked(a as nat)],
        Instruction::SkipEqImm(x, nn) => seq!["SE"@, marked(x as nat), decimal(nn as nat)],
        Instruction::SkipEqReg(x, y) => seq!["SE"@, marked(x as nat), marked(y as nat)],
        Instruction::SkipNeImm(x, nn) => seq!["SNE"@, marked(x as nat), decimal(nn as nat)],
        Instruction::SkipNeReg(x, y) => seq!["SNE"@, marked(x as nat), marked(y as nat)],
        Instruction::SetImm(x, nn) => seq!["LD"@, marked(x as nat), decimal(nn as nat)],
        Instruction::AddImm(x, nn) => seq!["ADD"@, marked(x as nat), decimal(nn as nat)],
        Instruction::AddMemPtr(x) => seq!["ADD"@, "I"@, marked(x as nat)],
        Instruction::AddReg(x, y) => seq!["ADD"@, marked(x as nat), marked(y as nat)],
        Instruction::SetReg(x, y) => seq!["LD"@, marked(x as nat), marked(y as nat)],
        Instruction::OrReg(x, y) => seq!["OR"@, marked(x as nat), marked(y as nat)],
        Instruction::AndReg(x, y) => seq!["AND"@, marked(x as nat), marked(y as nat)],
        Instruction::XorReg(x, y) => seq!["XOR"@, marked(x as nat), marked(y as nat)],
        Instruction::SubReg(x, y) => seq!["SUB"@, marked(x as nat), marked(y as nat)],
        Instruction::Rsh(x) => seq!["RSH"@, marked(x as nat)],
        Instruction::SubFrom(x, y) => seq!["SUBN"@, marked(x as nat), marked(y as nat)],
        Instruction::Lsh(x) => seq!["LSH"@, marked(x as nat)],
        Instruction::SetMemPtr(a) => seq!["LD"@, "I"@, decimal(a as nat)],
        Instruction::JumpOffset(a) => seq!["JP"@, "V0"@, decimal(a as nat)],
        Instruction::Rand(x, nn) => seq!["RND"@, marked(x as nat), decimal(nn as nat)],
        Instruction::Draw(x, y, n) => seq![
            "DRW"@,
            marked(x as nat),
            marked(y as nat),
            decimal(n as nat),
        ],
        Instruction::SkipKeyPressed(x) => seq!["SKP"@, marked(x as nat)],
        Instruction::SkipKeyNotPressed(x) => seq!["SKNP"@, marked(x as nat)],
        Instruction::GetDelay(x) => seq!["LD"@, marked(x as nat), "DT"@],
        Instruction::WaitForKey(x) => seq!["LD"@, marked(x as nat), "K"@],
        Instruction::SetDelay(x) => seq!["LD"@, "DT"@, marked(x as nat)],
        Instruction::SetSound(x) => seq!["LD"@, "ST"@, marked(x as nat)],
        Instruction::SetChar(x) => seq!["LD"@, "F"@, marked(x as nat)],
        Instruction::BCD(x) => seq!["LD"@, "B"@, marked(x as nat)],
        Instruction::RegDump(x) => seq!["LD"@, "[I]"@, marked(x as nat)],
        Instruction::RegLoad(x) => seq!["LD"@, marked(x as nat), "[I]"@],
    }
}

/// The mnemonic that an instruction is printed as: its words with one space
/// between neighbours.
pub open spec fn mnemonic_text(instruction: Instruction) -> Seq<char> {
    join(mnemonic_words(instruction), seq![' '])
}

/// The decimal numeral of a number, as a word.
fn number_word(n: u16) -> (word: Vec<char>)
    ensures
        word@ == decimal(n as nat),
{
    let mut word: Vec<char> = Vec::new();
    push_decimal(&mut word, n as u64);
    assert(Seq::<char>::empty() + decimal(n as nat) =~= decimal(n as nat));
    word
}

/// The decimal numeral of a number after the register marker, as a word.
fn marked_word(n: u16) -> (word: Vec<char>)
    ensures
        word@ == marked(n as nat),
{
    let mut word: Vec<char> = vec!['V'];
    assert(word@ =~= seq!['V']);
    push_decimal(&mut word, n as u64);
    word
}

impl Instruction {
    /// The words of the mnemonic of an instruction.
    fn words(&self) -> (words: Vec<Vec<char>>)
        ensures
            views(words@) == mnemonic_words(*self),
    {
        let words = match *self {
            Instruction::Nop => vec![chars_of("NOP")],
            Instruction::ClearScreen => vec![chars_of("CLS")],
            Instruction::Ret => vec![chars_of("RET")],
            Instruction::Jump(a) => vec![chars_of("JP"), number_word(a)],
            Instruction::Call(a) => vec![chars_of("CALL"), marked_word(a)],
            Instruction::SkipEqImm(x, nn) => vec![
                chars_of("SE"),
                marked_word(x as u16),
                number_word(nn as u16),
            ],
            Instruction::SkipEqReg(x, y) => vec![
                chars_of("SE"),
                marked_word(x as u16),
                marked_word(y as u16),
            ],
            Instruction::SkipNeImm(x, nn) => vec![
                chars_of("SNE"),
                marked_word(x as u16),
                number_word(nn as u16),
            ],
            Instruction::SkipNeReg(x, y) => vec![
                chars_of("SNE"),
                marked_word(x as u16),
                marked_word(y as u16),
            ],
            Instruction::SetImm(x, nn) => vec![
                chars_of("LD"),
                marked_word(x as u16),
                number_word(nn as u16),
            ],
            Instruction::AddImm(x, nn) => vec![
                chars_of("ADD"),
                marked_word(x as u16),
                number_word(nn as u16),
            ],
            Instruction::AddMemPtr(x) => vec![chars_of("ADD"), chars_of("I"), marked_word(x as u16)],
            Instruction::AddReg(x, y) => vec![
                chars_of("ADD"),
                marked_word(x as u16),
                marked_word(y as u16),
            ],
            Instruction::SetReg(x, y) => vec![
                chars_of("LD"),
                marked_word(x as u16),
                marked_word(y as u16),
            ],
            Instruction::OrReg(x, y) => vec![
                chars_of("OR"),
                marked_word(x as u16),
                marked_word(y as u16),
            ],
            Instruction::AndReg(x, y) => vec![
                chars_of("AND"),
                marked_word(x as u16),
                marked_word(y as u16),
            ],
            Instruction::XorReg(x, y) => vec![
                chars_of("XOR"),
                marked_word(x as u16),
                marked_word(y as u16),
            ],
            Instruction::SubReg(x, y) => vec![
                chars_of("SUB"),
                marked_word(x as u16),
                marked_word(y as u16),
            ],
            Instruction::Rsh(x) => vec![chars_of("RSH"), marked_word(x as u16)],
            Instruction::SubFrom(x, y) => vec![
                chars_of("SUBN"),
                marked_word(x as u16),
                marked_word(y as u16),
            ],
            Instruction::Lsh(x) => vec![chars_of("LSH"), marked_word(x as u16)],
            Instruction::SetMemPtr(a) => vec![chars_of("LD"), chars_of("I"), number_word(a)],
            Instruction::JumpOffset(a) => vec![chars_of("JP"), chars_of("V0"), number_word(a)],
            Instruction::Rand(x, nn) => vec![
                chars_of("RND"),
                marked_word(x as u16),
                number_word(nn as u16),
            ],
            Instruction::Draw(x, y, n) => vec![
                chars_of("DRW"),
                marked_word(x as u16),
                marked_word(y as u16),
                number_word(n as u16),
            ],
            Instruction::SkipKeyPressed(x) => vec![chars_of("SKP"), marked_word(x as u16)],
            Instruction::SkipKeyNotPressed(x) => vec![chars_of("SKNP"), marked_word(x as u16)],
            Instruction::GetDelay(x) => vec![chars_of("LD"), marked_word(x as u16), chars_of("DT")],
            Instruction::WaitForKey(x) => vec![chars_of("LD"), marked_word(x as u16), chars_of("K")],
            Instruction::SetDelay(x) => vec![chars_of("LD"), chars_of("DT"), marked_word(x as u16)],
            Instruction::SetSound(x) => vec![chars_of("LD"), chars_of("ST"), marked_word(x as u16)],
            Instruction::SetChar(x) => vec![chars_of("LD"), chars_of("F"), marked_word(x as u16)],
            Instruction::BCD(x) => vec![chars_of("LD"), chars_of("B"), marked_word(x as u16)],
            Instruction::RegDump(x) => vec![chars_of("LD"), chars_of("[I]"), marked_word(x as u16)],
            Instruction::RegLoad(x) => vec![chars_of("LD"), marked_word(x as u16), chars_of("[I]")],
        };
        assert(views(words@) =~= mnemonic_words(*self));
        words
    }

    /// Prints an instruction as its mnemonic.
    pub fn to_string(&self) -> (text: String)
        ensures
            text@ == mnemonic_text(*self),
    {
        let space: Vec<char> = vec![' '];
        assert(space@ =~= seq![' ']);
        string_of(&join_words(&self.words(), &space))
    }
}

} // verus!
