//! The line-by-line assembler and the disassembler.
//!
//! An assembly text holds one or more mnemonics per line, separated by
//! semicolons. A ROM is the big-endian words of its instructions in a row,
//! without a header.

use crate::errors::{ParseFailure, ParsingError, ParsingFailure};
use crate::instructions::Instruction;
use crate::mnemonic::{mnemonic_text, parse_mnemonic};
use crate::text::{
    chars_of, join, join_words, lines, lines_of, split, split_text, string_of, trim, trimmed,
    views, Separator,
};
use vstd::prelude::*;

verus! {

/// The words of the mnemonics in the pieces of one line, appended to
/// `words`. An empty piece holds no mnemonic; every other piece is parsed
/// without the white space around it. The first piece that cannot be parsed
/// ends the assembly with its failure.
pub open spec fn assemble_pieces(words: Seq<u16>, pieces: Seq<Seq<char>>) -> Result<
    Seq<u16>,
    ParseFailure,
>
    decreases pieces.len(),
{
    if pieces.len() == 0 {
        Ok(words)
    } else {
        match assemble_pieces(words, pieces.drop_last()) {
            Err(failure) => Err(failure),
            Ok(before) => if pieces.last().len() == 0 {
                Ok(before)
            } else {
                match parse_mnemonic(trim(pieces.last())) {
                    Ok(instruction) => Ok(before.push(instruction.encode_spec())),
                    Err(failure) => Err(failure),
                }
            },
        }
    }
}

/// The words of the mnemonics in the given lines, in order. A line is split
/// into pieces at its semicolons. The first mnemonic that cannot be parsed
/// ends the assembly with its failure and the index of its line.
pub open spec fn assemble_lines(lines: Seq<Seq<char>>) -> Result<Seq<u16>, ParsingFailure>
    decreases lines.len(),
{
    if lines.len() == 0 {
        Ok(Seq::empty())
    } else {
        match assemble_lines(lines.drop_last()) {
            Err(failure) => Err(failure),
            Ok(before) => match assemble_pieces(
                before,
                split(lines.last(), Separator::Char(';')),
            ) {
                Ok(words) => Ok(words),
                Err(failure) => Err(ParsingFailure { failure, line_number: lines.len() - 1 }),
            },
        }
    }
}

/// The words that an assembly text stands for.
pub open spec fn assembled(text: Seq<char>) -> Result<Seq<u16>, ParsingFailure> {
    assemble_lines(lines(text))
}

/// Assembles a text into the words of its instructions.
pub fn to_binary(text: &str) -> (result: Result<Vec<u16>, ParsingError>)
    ensures
        match assembled(text@) {
            Ok(words) => result matches Ok(binary) && binary@ == words,
            Err(failure) => result matches Err(error) && error@ == failure,
        },
{
    let all = lines_of(&chars_of(text));
    let mut binary: Vec<u16> = Vec::new();
    let mut line_number: usize = 0;
    assert(views(all@).take(0) =~= Seq::<Seq<char>>::empty());
    while line_number < all.len()
        invariant
            line_number <= all@.len(),
            views(all@) == lines(text@),
            assemble_lines(views(all@).take(line_number as int)) == Ok::<
                Seq<u16>,
                ParsingFailure,
            >(binary@),
        decreases all@.len() - line_number,
    {
        let ghost before = binary@;
        let pieces = split_text(&all[line_number], Separator::Char(';'));
        let mut k: usize = 0;
        assert(views(pieces@).take(0) =~= Seq::<Seq<char>>::empty());
        proof {
            let done = views(all@).take(line_number + 1);
            assert(done.drop_last() =~= views(all@).take(line_number as int));
            assert(done.last() == all@[line_number as int]@);
        }
        while k < pieces.len()
            invariant
                k <= pieces@.len(),
                line_number < all@.len(),
                views(all@) == lines(text@),
                assemble_pieces(before, views(pieces@).take(k as int)) == Ok::<
                    Seq<u16>,
                    ParseFailure,
                >(binary@),
                views(pieces@) == split(all@[line_number as int]@, Separator::Char(';')),
                assemble_lines(views(all@).take(line_number as int)) == Ok::<
                    Seq<u16>,
                    ParsingFailure,
                >(before),
            decreases pieces@.len() - k,
        {
            proof {
                let done = views(pieces@).take(k + 1);
                assert(done.drop_last() =~= views(pieces@).take(k as int));
                assert(done.last() == pieces@[k as int]@);
            }
            if pieces[k].len() > 0 {
                let mnemonic = string_of(&trimmed(&pieces[k]));
                match Instruction::from_mnemonic(mnemonic.as_str()) {
                    Ok(instruction) => {
                        binary.push(instruction.encode());
                    },
                    Err(error) => {
                        proof {
                            let failed = views(pieces@).take(k + 1);
                            assert(assemble_pieces(before, failed) == Err::<Seq<u16>, ParseFailure>(
                                error@,
                            ));
                            lemma_pieces_fail(before, views(pieces@), k + 1);
                            let failing = views(all@).take(line_number + 1);
                            assert(failing.drop_last() =~= views(all@).take(line_number as int));
                            assert(failing.last() == all@[line_number as int]@);
                            assert(assemble_lines(failing) == Err::<Seq<u16>, ParsingFailure>(
                                ParsingFailure {
                                    failure: error@,
                                    line_number: line_number as int,
                                },
                            ));
                            lemma_lines_fail(views(all@), line_number + 1);
                        }
                        return Err(ParsingError { error, line_number });
                    },
                }
            }
            k += 1;
        }
        assert(views(pieces@).take(pieces@.len() as int) =~= views(pieces@));
        line_number += 1;
    }
    assert(views(all@).take(all@.len() as int) =~= views(all@));
    Ok(binary)
}

/// A failure in the first pieces of a line is the failure of the line.
pub proof fn lemma_pieces_fail(words: Seq<u16>, pieces: Seq<Seq<char>>, k: int)
    requires
        0 <= k <= pieces.len(),
        assemble_pieces(words, pieces.take(k)) is Err,
    ensures
        assemble_pieces(words, pieces) == assemble_pieces(words, pieces.take(k)),
    decreases pieces.len() - k,
{
    if k < pieces.len() {
        assert(pieces.take(k + 1).drop_last() =~= pieces.take(k));
        lemma_pieces_fail(words, pieces, k + 1);
    } else {
        assert(pieces.take(k) =~= pieces);
    }
}

/// A failure in the first lines of a text is the failure of the text.
pub proof fn lemma_lines_fail(lines: Seq<Seq<char>>, k: int)
    requires
        0 <= k <= lines.len(),
        assemble_lines(lines.take(k)) is Err,
    ensures
        assemble_lines(lines) == assemble_lines(lines.take(k)),
    decreases lines.len() - k,
{
    if k < lines.len() {
        assert(lines.take(k + 1).drop_last() =~= lines.take(k));
        lemma_lines_fail(lines, k + 1);
    } else {
        assert(lines.take(k) =~= lines);
    }
}

/// The bytes of a sequence of words, the high byte of each word first.
pub open spec fn big_endian(words: Seq<u16>) -> Seq<u8> {
    Seq::new(
        2 * words.len(),
        |k: int|
            if k % 2 == 0 {
                (words[k / 2] / 0x100) as u8
            } else {
                (words[k / 2] % 0x100) as u8
            },
    )
}

/// The bytes of a sequence of words, the high byte of each word first.
pub fn to_bytes(words: &Vec<u16>) -> (bytes: Vec<u8>)
    ensures
        bytes@ == big_endian(words@),
{
    let mut bytes: Vec<u8> = Vec::new();
    let mut k: usize = 0;
    while k < words.len()
        invariant
            k <= words@.len(),
            bytes@ == big_endian(words@.take(k as int)),
        decreases words@.len() - k,
    {
        let word = words[k];
        assert((word >> 8) == word / 0x100 && (word & 0xFF) == word % 0x100) by (bit_vector);
        bytes.push((word >> 8) as u8);
        bytes.push((word & 0xFF) as u8);
        assert(bytes@ =~= big_endian(words@.take(k + 1)));
        k += 1;
    }
    assert(words@.take(words@.len() as int) =~= words@);
    bytes
}

/// The word in each pair of bytes, the high byte first. A last byte
/// without a partner is left out.
pub open spec fn words_of(bytes: Seq<u8>) -> Seq<u16> {
    Seq::new(bytes.len() / 2, |k: int| (bytes[2 * k] * 0x100 + bytes[2 * k + 1]) as u16)
}

/// The instructions before the first `Nop`.
pub open spec fn until_nop(instructions: Seq<Instruction>) -> Seq<Instruction>
    decreases instructions.len(),
{
    if instructions.len() == 0 {
        instructions
    } else {
        let before = until_nop(instructions.drop_last());
        if before.len() == instructions.len() - 1 && !(instructions.last() is Nop) {
            instructions
        } else {
            before
        }
    }
}

/// The instructions of a ROM: its words, decoded, up to the first word that
/// decodes to `Nop`.
pub open spec fn disassembled(bytes: Seq<u8>) -> Seq<Instruction> {
    until_nop(words_of(bytes).map_values(|word: u16| Instruction::decode_spec(word)))
}

/// The text of a disassembled ROM: the mnemonics of its instructions with a
/// semicolon and a line feed between neighbours.
pub open spec fn disassembly(bytes: Seq<u8>) -> Seq<char> {
    join(disassembled(bytes).map_values(|i: Instruction| mnemonic_text(i)), seq![';', '\n'])
}

/// What comes before the first `Nop` is a prefix.
pub proof fn lemma_until_nop_prefix(instructions: Seq<Instruction>)
    ensures
        until_nop(instructions).len() <= instructions.len(),
        until_nop(instructions) == instructions.take(until_nop(instructions).len() as int),
    decreases instructions.len(),
{
    if instructions.len() > 0 {
        lemma_until_nop_prefix(instructions.drop_last());
        let before = until_nop(instructions.drop_last());
        if before.len() == instructions.len() - 1 && !(instructions.last() is Nop) {
            assert(instructions.take(instructions.len() as int) =~= instructions);
        } else {
            assert(instructions.drop_last().take(before.len() as int) =~= instructions.take(
                before.len() as int,
            ));
        }
    } else {
        assert(instructions.take(0) =~= instructions);
    }
}

/// Decodes a ROM up to its first `Nop`.
pub fn disassemble_instructions(bytes: &[u8]) -> (instructions: Vec<Instruction>)
    ensures
        instructions@ == disassembled(bytes@),
{
    let ghost decoded = words_of(bytes@).map_values(|word: u16| Instruction::decode_spec(word));
    let count = bytes.len() / 2;
    let mut instructions: Vec<Instruction> = Vec::new();
    let mut k: usize = 0;
    let mut stopped = false;
    assert(decoded.take(0) =~= Seq::<Instruction>::empty());
    while k < count && !stopped
        invariant
            k <= count == bytes@.len() / 2,
            bytes@.len() <= usize::MAX,
            decoded == words_of(bytes@).map_values(|word: u16| Instruction::decode_spec(word)),
            instructions@ == until_nop(decoded.take(k as int)),
            instructions@.len() <= k,
            stopped <==> instructions@.len() < k,
        decreases count - k,
    {
        let upper = bytes[2 * k];
        let lower = bytes[2 * k + 1];
        assert(((upper as u16) << 8) | (lower as u16) == upper * 0x100 + lower) by (bit_vector);
        let instruction = Instruction::decode(((upper as u16) << 8) | (lower as u16));
        proof {
            assert(decoded.take(k + 1).drop_last() =~= decoded.take(k as int));
            assert(decoded.take(k + 1).last() == instruction);
        }
        let ghost before = instructions@;
        proof {
            lemma_until_nop_prefix(decoded.take(k as int));
            assert(decoded.take(k as int).take(k as int) =~= decoded.take(k as int));
            assert(before == decoded.take(k as int));
        }
        if matches!(instruction, Instruction::Nop) {
            stopped = true;
            assert(until_nop(decoded.take(k + 1)) == before);
        } else {
            instructions.push(instruction);
            assert(instructions@ =~= decoded.take(k + 1));
            assert(until_nop(decoded.take(k + 1)) == decoded.take(k + 1));
        }
        k += 1;
    }
    proof {
        lemma_until_nop_rest(decoded, k as int);
    }
    instructions
}

/// Once a `Nop` was met, the instructions after it do not count.
pub proof fn lemma_until_nop_rest(instructions: Seq<Instruction>, k: int)
    requires
        0 <= k <= instructions.len(),
        k == instructions.len() || until_nop(instructions.take(k)).len() < k,
    ensures
        until_nop(instructions) == until_nop(instructions.take(k)),
    decreases instructions.len() - k,
{
    if k < instructions.len() {
        assert(instructions.take(k + 1).drop_last() =~= instructions.take(k));
        lemma_until_nop_rest(instructions, k + 1);
    } else {
        assert(instructions.take(k) =~= instructions);
    }
}

/// Disassembles a ROM into text: one mnemonic per instruction, up to the
/// first word that decodes to `Nop`, with `";\n"` between neighbours.
pub fn disassemble(bytes: &[u8]) -> (text: String)
    ensures
        text@ == disassembly(bytes@),
{
    let instructions = disassemble_instructions(bytes);
    let mut mnemonics: Vec<Vec<char>> = Vec::new();
    let mut k: usize = 0;
    while k < instructions.len()
        invariant
            k <= instructions@.len(),
            views(mnemonics@) == instructions@.take(k as int).map_values(
                |i: Instruction| mnemonic_text(i),
            ),
        decreases instructions@.len() - k,
    {
        let mnemonic = instructions[k].to_string();
        let ghost before = views(mnemonics@);
        mnemonics.push(chars_of(mnemonic.as_str()));
        assert(views(mnemonics@) =~= before.push(mnemonic_text(instructions@[k as int])));
        assert(views(mnemonics@) =~= instructions@.take(k + 1).map_values(
            |i: Instruction| mnemonic_text(i),
        ));
        k += 1;
    }
    assert(instructions@.take(instructions@.len() as int) =~= instructions@);
    let separator: Vec<char> = vec![';', '\n'];
    assert(separator@ =~= seq![';', '\n']);
    string_of(&join_words(&mnemonics, &separator))
}

} // verus!
