//! Parsing undoes printing: every instruction is read back from its
//! mnemonic.

use crate::errors::ParseFailure;
use crate::instructions::Instruction;
use crate::mnemonic::{
    address_argument, byte_argument, keyword_at, keyword_named, marked, mnemonic_text,
    mnemonic_words, parse_mnemonic, parse_words, place_at, place_named, register_shaped, unmarked,
    Keyword, Place,
};
use crate::numeral::{decimal, lemma_decimal_is_plain, lemma_parse_decimal, parse_decimal};
use crate::text::{
    lemma_lowercase_concat, lemma_lowercase_join, lemma_split_join, lowercase, lowercase_each,
    split, unbroken, Separator,
};
use vstd::prelude::*;

verus! {

/// A marked number in small letters.
pub open spec fn small_marked(n: nat) -> Seq<char> {
    seq!['v'] + decimal(n)
}

/// A marked number in small letters is the small marker and the number; it
/// holds no white space, and without the marker it is the number.
proof fn lemma_small_marked(n: nat)
    ensures
        lowercase(marked(n)) == small_marked(n),
        unbroken(small_marked(n), Separator::Space),
        unmarked(small_marked(n)) == decimal(n),
        small_marked(n).len() >= 2,
        small_marked(n)[0] == 'v',
{
    lemma_decimal_is_plain(n);
    lemma_lowercase_concat(seq!['V'], decimal(n));
    assert(lowercase(seq!['V']) =~= seq!['v']);
    assert(small_marked(n).skip(1) =~= decimal(n));
}

/// A numeral reads the same in small letters; it is neither marked nor
/// broken by white space.
proof fn lemma_small_number(n: nat)
    ensures
        lowercase(decimal(n)) == decimal(n),
        unbroken(decimal(n), Separator::Space),
        unmarked(decimal(n)) == decimal(n),
        decimal(n).len() >= 1,
        crate::numeral::is_digit(decimal(n)[0]),
{
    lemma_decimal_is_plain(n);
}

/// The keywords and operand names in small letters.
proof fn lemma_small_names()
    ensures
        lowercase("NOP"@) == "nop"@ && unbroken("nop"@, Separator::Space),
        lowercase("CLS"@) == "cls"@ && unbroken("cls"@, Separator::Space),
        lowercase("RET"@) == "ret"@ && unbroken("ret"@, Separator::Space),
        lowercase("JP"@) == "jp"@ && unbroken("jp"@, Separator::Space),
        lowercase("CALL"@) == "call"@ && unbroken("call"@, Separator::Space),
        lowercase("SE"@) == "se"@ && unbroken("se"@, Separator::Space),
        lowercase("SNE"@) == "sne"@ && unbroken("sne"@, Separator::Space),
        lowercase("LD"@) == "ld"@ && unbroken("ld"@, Separator::Space),
        lowercase("ADD"@) == "add"@ && unbroken("add"@, Separator::Space),
        lowercase("OR"@) == "or"@ && unbroken("or"@, Separator::Space),
        lowercase("AND"@) == "and"@ && unbroken("and"@, Separator::Space),
        lowercase("XOR"@) == "xor"@ && unbroken("xor"@, Separator::Space),
        lowercase("SUB"@) == "sub"@ && unbroken("sub"@, Separator::Space),
        lowercase("RSH"@) == "rsh"@ && unbroken("rsh"@, Separator::Space),
        lowercase("SUBN"@) == "subn"@ && unbroken("subn"@, Separator::Space),
        lowercase("LSH"@) == "lsh"@ && unbroken("lsh"@, Separator::Space),
        lowercase("RND"@) == "rnd"@ && unbroken("rnd"@, Separator::Space),
        lowercase("DRW"@) == "drw"@ && unbroken("drw"@, Separator::Space),
        lowercase("SKP"@) == "skp"@ && unbroken("skp"@, Separator::Space),
        lowercase("SKNP"@) == "sknp"@ && unbroken("sknp"@, Separator::Space),
        lowercase("I"@) == "i"@ && unbroken("i"@, Separator::Space),
        lowercase("[I]"@) == "[i]"@ && unbroken("[i]"@, Separator::Space),
        lowercase("DT"@) == "dt"@ && unbroken("dt"@, Separator::Space),
        lowercase("ST"@) == "st"@ && unbroken("st"@, Separator::Space),
        lowercase("F"@) == "f"@ && unbroken("f"@, Separator::Space),
        lowercase("B"@) == "b"@ && unbroken("b"@, Separator::Space),
        lowercase("K"@) == "k"@ && unbroken("k"@, Separator::Space),
        lowercase("V0"@) == "v0"@ && unbroken("v0"@, Separator::Space),
{
    reveal_strlit("NOP");
    reveal_strlit("nop");
    assert(lowercase("NOP"@) =~= "nop"@);
    reveal_strlit("CLS");
    reveal_strlit("cls");
    assert(lowercase("CLS"@) =~= "cls"@);
    reveal_strlit("RET");
    reveal_strlit("ret");
    assert(lowercase("RET"@) =~= "ret"@);
    reveal_strlit("JP");
    reveal_strlit("jp");
    assert(lowercase("JP"@) =~= "jp"@);
    reveal_strlit("CALL");
    reveal_strlit("call");
    assert(lowercase("CALL"@) =~= "call"@);
    reveal_strlit("SE");
    reveal_strlit("se");
    assert(lowercase("SE"@) =~= "se"@);
    reveal_strlit("SNE");
    reveal_strlit("sne");
    assert(lowercase("SNE"@) =~= "sne"@);
    reveal_strlit("LD");
    reveal_strlit("ld");
    assert(lowercase("LD"@) =~= "ld"@);
    reveal_strlit("ADD");
    reveal_strlit("add");
    assert(lowercase("ADD"@) =~= "add"@);
    reveal_strlit("OR");
    reveal_strlit("or");
    assert(lowercase("OR"@) =~= "or"@);
    reveal_strlit("AND");
    reveal_strlit("and");
    assert(lowercase("AND"@) =~= "and"@);
    reveal_strlit("XOR");
    reveal_strlit("xor");
    assert(lowercase("XOR"@) =~= "xor"@);
    reveal_strlit("SUB");
    reveal_strlit("sub");
    assert(lowercase("SUB"@) =~= "sub"@);
    reveal_strlit("RSH");
    reveal_strlit("rsh");
    assert(lowercase("RSH"@) =~= "rsh"@);
    reveal_strlit("SUBN");
    reveal_strlit("subn");
    assert(lowercase("SUBN"@) =~= "subn"@);
    reveal_strlit("LSH");
    reveal_strlit("lsh");
    assert(lowercase("LSH"@) =~= "lsh"@);
    reveal_strlit("RND");
    reveal_strlit("rnd");
    assert(lowercase("RND"@) =~= "rnd"@);
    reveal_strlit("DRW");
    reveal_strlit("drw");
    assert(lowercase("DRW"@) =~= "drw"@);
    reveal_strlit("SKP");
    reveal_strlit("skp");
    assert(lowercase("SKP"@) =~= "skp"@);
    reveal_strlit("SKNP");
    reveal_strlit("sknp");
    assert(lowercase("SKNP"@) =~= "sknp"@);
    reveal_strlit("I");
    reveal_strlit("i");
    assert(lowercase("I"@) =~= "i"@);
    reveal_strlit("[I]");
    reveal_strlit("[i]");
    assert(lowercase("[I]"@) =~= "[i]"@);
    reveal_strlit("DT");
    reveal_strlit("dt");
    assert(lowercase("DT"@) =~= "dt"@);
    reveal_strlit("ST");
    reveal_strlit("st");
    assert(lowercase("ST"@) =~= "st"@);
    reveal_strlit("F");
    reveal_strlit("f");
    assert(lowercase("F"@) =~= "f"@);
    reveal_strlit("B");
    reveal_strlit("b");
    assert(lowercase("B"@) =~= "b"@);
    reveal_strlit("K");
    reveal_strlit("k");
    assert(lowercase("K"@) =~= "k"@);
    reveal_strlit("V0");
    reveal_strlit("v0");
    assert(lowercase("V0"@) =~= "v0"@);
}

/// What is known of a number that is printed as an operand, marked or
/// not: both numerals read the same in small letters but for the marker,
/// hold no white space, and are read back as the number.
proof fn lemma_number(n: nat)
    requires
        n <= 0xFFFF,
    ensures
        lowercase(marked(n)) == small_marked(n),
        lowercase(decimal(n)) == decimal(n),
        unbroken(small_marked(n), Separator::Space),
        unbroken(decimal(n), Separator::Space),
        parse_decimal(unmarked(small_marked(n)), 0xFFFF) == Some(n),
        parse_decimal(unmarked(decimal(n)), 0xFFFF) == Some(n),
        n <= 0xFF ==> parse_decimal(unmarked(small_marked(n)), 0xFF) == Some(n),
        n <= 0xFF ==> parse_decimal(unmarked(decimal(n)), 0xFF) == Some(n),
        small_marked(n).len() >= 2 && small_marked(n)[0] == 'v',
        decimal(n).len() >= 1 && crate::numeral::is_digit(decimal(n)[0]),
{
    lemma_small_marked(n);
    lemma_small_number(n);
    lemma_parse_decimal(n, 0xFFFF);
    if n <= 0xFF {
        lemma_parse_decimal(n, 0xFF);
    }
}

/// What is known of the operands of an instruction.
proof fn lemma_operands(x: nat, y: nat, a: nat)
    requires
        x <= 0xFF,
        y <= 0xFF,
        a <= 0xFFFF,
    ensures
        lowercase(marked(x)) == small_marked(x),
        lowercase(marked(y)) == small_marked(y),
        lowercase(marked(a)) == small_marked(a),
        lowercase(decimal(x)) == decimal(x),
        lowercase(decimal(y)) == decimal(y),
        lowercase(decimal(a)) == decimal(a),
        unbroken(small_marked(x), Separator::Space),
        unbroken(small_marked(y), Separator::Space),
        unbroken(small_marked(a), Separator::Space),
        unbroken(decimal(x), Separator::Space),
        unbroken(decimal(y), Separator::Space),
        unbroken(decimal(a), Separator::Space),
{
    lemma_number(x);
    lemma_number(y);
    lemma_number(a);
}

/// The operands of an instruction: its first and second byte, and its
/// address or the height of its sprite, each 0 where the instruction has
/// none.
pub open spec fn operands(instruction: Instruction) -> (nat, nat, nat) {
    match instruction {
        Instruction::Nop | Instruction::ClearScreen | Instruction::Ret => (0, 0, 0),
        Instruction::Jump(a)
        | Instruction::Call(a)
        | Instruction::SetMemPtr(a)
        | Instruction::JumpOffset(a) => (0, 0, a as nat),
        Instruction::SkipEqImm(x, y)
        | Instruction::SkipNeImm(x, y)
        | Instruction::SetImm(x, y)
        | Instruction::AddImm(x, y)
        | Instruction::Rand(x, y)
        | Instruction::SkipEqReg(x, y)
        | Instruction::SetReg(x, y)
        | Instruction::OrReg(x, y)
        | Instruction::AndReg(x, y)
        | Instruction::XorReg(x, y)
        | Instruction::AddReg(x, y)
        | Instruction::SubReg(x, y)
        | Instruction::SubFrom(x, y)
        | Instruction::SkipNeReg(x, y) => (x as nat, y as nat, 0),
        Instruction::Draw(x, y, n) => (x as nat, y as nat, n as nat),
        Instruction::Rsh(x)
        | Instruction::Lsh(x)
        | Instruction::SkipKeyPressed(x)
        | Instruction::SkipKeyNotPressed(x)
        | Instruction::GetDelay(x)
        | Instruction::WaitForKey(x)
        | Instruction::SetDelay(x)
        | Instruction::SetSound(x)
        | Instruction::AddMemPtr(x)
        | Instruction::SetChar(x)
        | Instruction::BCD(x)
        | Instruction::RegDump(x)
        | Instruction::RegLoad(x) => (x as nat, 0, 0),
    }
}

/// The words of a printed mnemonic, in small letters, are what splitting
/// the mnemonic in small letters gives.
proof fn lemma_split_printed(instruction: Instruction)
    ensures
        split(lowercase(mnemonic_text(instruction)), Separator::Space) == lowercase_each(
            mnemonic_words(instruction),
        ),
{
    let words = mnemonic_words(instruction);
    let small = lowercase_each(words);
    assert(lowercase(seq![' ']) =~= seq![' ']);
    lemma_lowercase_join(words, seq![' ']);
    lemma_small_names();
    let (x, y, a) = operands(instruction);
    lemma_operands(x, y, a);
    assert forall|k: int| 0 <= k < small.len() implies unbroken(
        #[trigger] small[k],
        Separator::Space,
    ) by {}
    lemma_split_join(small, ' ', Separator::Space);
}

/// The words of the mnemonic of an instruction in small letters.
pub open spec fn small_words(instruction: Instruction) -> Seq<Seq<char>> {
    match instruction {
        Instruction::Nop => seq!["nop"@],
        Instruction::ClearScreen => seq!["cls"@],
        Instruction::Ret => seq!["ret"@],
        Instruction::Jump(a) => seq!["jp"@, decimal(a as nat)],
        Instruction::Call(a) => seq!["call"@, small_marked(a as nat)],
        Instruction::SkipEqImm(x, y) => seq!["se"@, small_marked(x as nat), decimal(y as nat)],
        Instruction::SkipEqReg(x, y) => seq!["se"@, small_marked(x as nat), small_marked(y as nat)],
        Instruction::SkipNeImm(x, y) => seq!["sne"@, small_marked(x as nat), decimal(y as nat)],
        Instruction::SkipNeReg(x, y) => seq!["sne"@, small_marked(x as nat), small_marked(y as nat)],
        Instruction::SetImm(x, y) => seq!["ld"@, small_marked(x as nat), decimal(y as nat)],
        Instruction::AddImm(x, y) => seq!["add"@, small_marked(x as nat), decimal(y as nat)],
        Instruction::AddMemPtr(x) => seq!["add"@, "i"@, small_marked(x as nat)],
        Instruction::AddReg(x, y) => seq!["add"@, small_marked(x as nat), small_marked(y as nat)],
        Instruction::SetReg(x, y) => seq!["ld"@, small_marked(x as nat), small_marked(y as nat)],
        Instruction::OrReg(x, y) => seq!["or"@, small_marked(x as nat), small_marked(y as nat)],
        Instruction::AndReg(x, y) => seq!["and"@, small_marked(x as nat), small_marked(y as nat)],
        Instruction::XorReg(x, y) => seq!["xor"@, small_marked(x as nat), small_marked(y as nat)],
        Instruction::SubReg(x, y) => seq!["sub"@, small_marked(x as nat), small_marked(y as nat)],
        Instruction::Rsh(x) => seq!["rsh"@, small_marked(x as nat)],
        Instruction::SubFrom(x, y) => seq!["subn"@, small_marked(x as nat), small_marked(y as nat)],
        Instruction::Lsh(x) => seq!["lsh"@, small_marked(x as nat)],
        Instruction::SetMemPtr(a) => seq!["ld"@, "i"@, decimal(a as nat)],
        Instruction::JumpOffset(a) => seq!["jp"@, "v0"@, decimal(a as nat)],
        Instruction::Rand(x, y) => seq!["rnd"@, small_marked(x as nat), decimal(y as nat)],
        Instruction::Draw(x, y, n) => seq!["drw"@, small_marked(x as nat), small_marked(y as nat), decimal(n as nat)],
        Instruction::SkipKeyPressed(x) => seq!["skp"@, small_marked(x as nat)],
        Instruction::SkipKeyNotPressed(x) => seq!["sknp"@, small_marked(x as nat)],
        Instruction::GetDelay(x) => seq!["ld"@, small_marked(x as nat), "dt"@],
        Instruction::WaitForKey(x) => seq!["ld"@, small_marked(x as nat), "k"@],
        Instruction::SetDelay(x) => seq!["ld"@, "dt"@, small_marked(x as nat)],
        Instruction::SetSound(x) => seq!["ld"@, "st"@, small_marked(x as nat)],
        Instruction::SetChar(x) => seq!["ld"@, "f"@, small_marked(x as nat)],
        Instruction::BCD(x) => seq!["ld"@, "b"@, small_marked(x as nat)],
        Instruction::RegDump(x) => seq!["ld"@, "[i]"@, small_marked(x as nat)],
        Instruction::RegLoad(x) => seq!["ld"@, small_marked(x as nat), "[i]"@],
    }
}

/// The words of a printed mnemonic in small letters, one by one.
proof fn lemma_small_words(instruction: Instruction)
    ensures
        lowercase_each(mnemonic_words(instruction)) == small_words(instruction),
{
    lemma_small_names();
    let (x, y, a) = operands(instruction);
    lemma_operands(x, y, a);
    assert(lowercase_each(mnemonic_words(instruction)) =~= small_words(instruction));
}

/// Each keyword is recognised by its name.
proof fn lemma_keywords()
    ensures
        keyword_named("cls"@) == Some(Keyword::Cls),
        keyword_named("ret"@) == Some(Keyword::Ret),
        keyword_named("nop"@) == Some(Keyword::Nop),
        keyword_named("jp"@) == Some(Keyword::Jp),
        keyword_named("call"@) == Some(Keyword::Call),
        keyword_named("se"@) == Some(Keyword::Se),
        keyword_named("sne"@) == Some(Keyword::Sne),
        keyword_named("ld"@) == Some(Keyword::Ld),
        keyword_named("add"@) == Some(Keyword::Add),
        keyword_named("or"@) == Some(Keyword::Or),
        keyword_named("and"@) == Some(Keyword::And),
        keyword_named("xor"@) == Some(Keyword::Xor),
        keyword_named("sub"@) == Some(Keyword::Sub),
        keyword_named("rsh"@) == Some(Keyword::Rsh),
        keyword_named("subn"@) == Some(Keyword::Subn),
        keyword_named("lsh"@) == Some(Keyword::Lsh),
        keyword_named("rnd"@) == Some(Keyword::Rnd),
        keyword_named("drw"@) == Some(Keyword::Drw),
        keyword_named("skp"@) == Some(Keyword::Skp),
        keyword_named("sknp"@) == Some(Keyword::Sknp),
{
    reveal_strlit("cls");
    assert("cls"@.len() == 3 && "cls"@[0] == 'c' && "cls"@[1] == 'l' && "cls"@[2] == 's');
    reveal_strlit("ret");
    assert("ret"@.len() == 3 && "ret"@[0] == 'r' && "ret"@[1] == 'e' && "ret"@[2] == 't');
    reveal_strlit("nop");
    assert("nop"@.len() == 3 && "nop"@[0] == 'n' && "nop"@[1] == 'o' && "nop"@[2] == 'p');
    reveal_strlit("jp");
    assert("jp"@.len() == 2 && "jp"@[0] == 'j' && "jp"@[1] == 'p');
    reveal_strlit("call");
    assert("call"@.len() == 4 && "call"@[0] == 'c' && "call"@[1] == 'a' && "call"@[2] == 'l' && "call"@[3] == 'l');
    reveal_strlit("se");
    assert("se"@.len() == 2 && "se"@[0] == 's' && "se"@[1] == 'e');
    reveal_strlit("sne");
    assert("sne"@.len() == 3 && "sne"@[0] == 's' && "sne"@[1] == 'n' && "sne"@[2] == 'e');
    reveal_strlit("ld");
    assert("ld"@.len() == 2 && "ld"@[0] == 'l' && "ld"@[1] == 'd');
    reveal_strlit("add");
    assert("add"@.len() == 3 && "add"@[0] == 'a' && "add"@[1] == 'd' && "add"@[2] == 'd');
    reveal_strlit("or");
    assert("or"@.len() == 2 && "or"@[0] == 'o' && "or"@[1] == 'r');
    reveal_strlit("and");
    assert("and"@.len() == 3 && "and"@[0] == 'a' && "and"@[1] == 'n' && "and"@[2] == 'd');
    reveal_strlit("xor");
    assert("xor"@.len() == 3 && "xor"@[0] == 'x' && "xor"@[1] == 'o' && "xor"@[2] == 'r');
    reveal_strlit("sub");
    assert("sub"@.len() == 3 && "sub"@[0] == 's' && "sub"@[1] == 'u' && "sub"@[2] == 'b');
    reveal_strlit("rsh");
    assert("rsh"@.len() == 3 && "rsh"@[0] == 'r' && "rsh"@[1] == 's' && "rsh"@[2] == 'h');
    reveal_strlit("subn");
    assert("subn"@.len() == 4 && "subn"@[0] == 's' && "subn"@[1] == 'u' && "subn"@[2] == 'b' && "subn"@[3] == 'n');
    reveal_strlit("lsh");
    assert("lsh"@.len() == 3 && "lsh"@[0] == 'l' && "lsh"@[1] == 's' && "lsh"@[2] == 'h');
    reveal_strlit("rnd");
    assert("rnd"@.len() == 3 && "rnd"@[0] == 'r' && "rnd"@[1] == 'n' && "rnd"@[2] == 'd');
    reveal_strlit("drw");
    assert("drw"@.len() == 3 && "drw"@[0] == 'd' && "drw"@[1] == 'r' && "drw"@[2] == 'w');
    reveal_strlit("skp");
    assert("skp"@.len() == 3 && "skp"@[0] == 's' && "skp"@[1] == 'k' && "skp"@[2] == 'p');
    reveal_strlit("sknp");
    assert("sknp"@.len() == 4 && "sknp"@[0] == 's' && "sknp"@[1] == 'k' && "sknp"@[2] == 'n' && "sknp"@[3] == 'p');
}

/// Each place is recognised by its name; a number names no place, be it
/// marked or not.
proof fn lemma_places(n: nat)
    ensures
        place_named("i"@) == Some(Place::Index),
        place_named("[i]"@) == Some(Place::Memory),
        place_named("dt"@) == Some(Place::Delay),
        place_named("st"@) == Some(Place::Sound),
        place_named("f"@) == Some(Place::Glyph),
        place_named("b"@) == Some(Place::Digits),
        place_named("k"@) == Some(Place::Key),
        place_named(decimal(n)) is None,
        place_named(small_marked(n)) is None,
        place_named("v0"@) is None,
{
    reveal_strlit("i");
    assert("i"@.len() == 1 && "i"@[0] == 'i');
    reveal_strlit("[i]");
    assert("[i]"@.len() == 3 && "[i]"@[0] == '[' && "[i]"@[1] == 'i' && "[i]"@[2] == ']');
    reveal_strlit("dt");
    assert("dt"@.len() == 2 && "dt"@[0] == 'd' && "dt"@[1] == 't');
    reveal_strlit("st");
    assert("st"@.len() == 2 && "st"@[0] == 's' && "st"@[1] == 't');
    reveal_strlit("f");
    assert("f"@.len() == 1 && "f"@[0] == 'f');
    reveal_strlit("b");
    assert("b"@.len() == 1 && "b"@[0] == 'b');
    reveal_strlit("k");
    assert("k"@.len() == 1 && "k"@[0] == 'k');
    reveal_strlit("v0");
    assert("v0"@.len() == 2 && "v0"@[0] == 'v' && "v0"@[1] == '0');
    lemma_small_marked(n);
    lemma_small_number(n);
}

/// A byte operand is read back from its numeral, marked or not; it names
/// no place, and it has the shape of a register exactly when it is marked.
proof fn lemma_byte_operand(words: Seq<Seq<char>>, index: int, n: u8, is_marked: bool)
    requires
        0 <= index < words.len(),
        words[index] == if is_marked {
            small_marked(n as nat)
        } else {
            decimal(n as nat)
        },
    ensures
        byte_argument(words, index) == Ok::<u8, ParseFailure>(n),
        register_shaped(words, index) == is_marked,
        place_at(words, index) is None,
{
    lemma_number(n as nat);
    lemma_places(n as nat);
}

/// An address operand is read back from its numeral, marked or not.
proof fn lemma_address_operand(words: Seq<Seq<char>>, index: int, n: u16, is_marked: bool)
    requires
        0 <= index < words.len(),
        words[index] == if is_marked {
            small_marked(n as nat)
        } else {
            decimal(n as nat)
        },
    ensures
        address_argument(words, index) == Ok::<u16, ParseFailure>(n),
{
    lemma_number(n as nat);
}

/// The keyword of a mnemonic is recognised by its name.
proof fn lemma_keyword_at(words: Seq<Seq<char>>, keyword: Keyword)
    requires
        words.len() >= 1,
        keyword_named(words[0]) == Some(keyword),
    ensures
        keyword_at(words) == Some(keyword),
{
}

/// The words of the printed mnemonic of an instruction without operands are parsed as that
/// instruction.
#[verifier::rlimit(50)]
proof fn lemma_parse_plain(text: Seq<char>, instruction: Instruction)
    requires
        instruction is Nop || instruction is ClearScreen || instruction is Ret,
    ensures
        parse_words(text, small_words(instruction)) == Ok::<Instruction, ParseFailure>(instruction),
{
    let words = small_words(instruction);
    lemma_keywords();
    lemma_places(0);
    match instruction {
        Instruction::Nop => {
            lemma_keyword_at(words, Keyword::Nop);
        },
        Instruction::ClearScreen => {
            lemma_keyword_at(words, Keyword::Cls);
        },
        Instruction::Ret => {
            lemma_keyword_at(words, Keyword::Ret);
        },
        _ => {},
    }
}

/// The words of the printed mnemonic of an instruction on an address are parsed as that
/// instruction.
#[verifier::rlimit(50)]
proof fn lemma_parse_address(text: Seq<char>, instruction: Instruction)
    requires
        instruction is Jump || instruction is Call || instruction is SetMemPtr || instruction is JumpOffset,
    ensures
        parse_words(text, small_words(instruction)) == Ok::<Instruction, ParseFailure>(instruction),
{
    let words = small_words(instruction);
    lemma_keywords();
    lemma_places(0);
    match instruction {
        Instruction::Jump(a) => {
            lemma_keyword_at(words, Keyword::Jp);
            lemma_address_operand(words, 1, a, false);
        },
        Instruction::Call(a) => {
            lemma_keyword_at(words, Keyword::Call);
            lemma_address_operand(words, 1, a, true);
        },
        Instruction::SetMemPtr(a) => {
            lemma_keyword_at(words, Keyword::Ld);
            lemma_address_operand(words, 2, a, false);
        },
        Instruction::JumpOffset(a) => {
            lemma_keyword_at(words, Keyword::Jp);
            lemma_address_operand(words, 2, a, false);
        },
        _ => {},
    }
}

/// The words of the printed mnemonic of an instruction on a register and a byte are parsed as that
/// instruction.
#[verifier::rlimit(50)]
proof fn lemma_parse_immediate(text: Seq<char>, instruction: Instruction)
    requires
        instruction is SkipEqImm || instruction is SkipNeImm || instruction is SetImm || instruction is AddImm || instruction is Rand,
    ensures
        parse_words(text, small_words(instruction)) == Ok::<Instruction, ParseFailure>(instruction),
{
    let words = small_words(instruction);
    lemma_keywords();
    lemma_places(0);
    match instruction {
        Instruction::SkipEqImm(x, y) => {
            lemma_keyword_at(words, Keyword::Se);
            lemma_byte_operand(words, 1, x, true);
            lemma_byte_operand(words, 2, y, false);
        },
        Instruction::SkipNeImm(x, y) => {
            lemma_keyword_at(words, Keyword::Sne);
            lemma_byte_operand(words, 1, x, true);
            lemma_byte_operand(words, 2, y, false);
        },
        Instruction::SetImm(x, y) => {
            lemma_keyword_at(words, Keyword::Ld);
            lemma_byte_operand(words, 1, x, true);
            lemma_byte_operand(words, 2, y, false);
        },
        Instruction::AddImm(x, y) => {
            lemma_keyword_at(words, Keyword::Add);
            lemma_byte_operand(words, 1, x, true);
            lemma_byte_operand(words, 2, y, false);
        },
        Instruction::Rand(x, y) => {
            lemma_keyword_at(words, Keyword::Rnd);
            lemma_byte_operand(words, 1, x, true);
            lemma_byte_operand(words, 2, y, false);
        },
        _ => {},
    }
}

/// The words of the printed mnemonic of an instruction on two registers are parsed as that
/// instruction.
#[verifier::rlimit(50)]
proof fn lemma_parse_registers(text: Seq<char>, instruction: Instruction)
    requires
        instruction is SkipEqReg || instruction is SkipNeReg || instruction is SetReg || instruction is AddReg || instruction is OrReg || instruction is AndReg || instruction is XorReg || instruction is SubReg || instruction is SubFrom,
    ensures
        parse_words(text, small_words(instruction)) == Ok::<Instruction, ParseFailure>(instruction),
{
    let words = small_words(instruction);
    lemma_keywords();
    lemma_places(0);
    match instruction {
        Instruction::SkipEqReg(x, y) => {
            lemma_keyword_at(words, Keyword::Se);
            lemma_byte_operand(words, 1, x, true);
            lemma_byte_operand(words, 2, y, true);
        },
        Instruction::SkipNeReg(x, y) => {
            lemma_keyword_at(words, Keyword::Sne);
            lemma_byte_operand(words, 1, x, true);
            lemma_byte_operand(words, 2, y, true);
        },
        Instruction::SetReg(x, y) => {
            lemma_keyword_at(words, Keyword::Ld);
            lemma_byte_operand(words, 1, x, true);
            lemma_byte_operand(words, 2, y, true);
        },
        Instruction::AddReg(x, y) => {
            lemma_keyword_at(words, Keyword::Add);
            lemma_byte_operand(words, 1, x, true);
            lemma_byte_operand(words, 2, y, true);
        },
        Instruction::OrReg(x, y) => {
            lemma_keyword_at(words, Keyword::Or);
            lemma_byte_operand(words, 1, x, true);
            lemma_byte_operand(words, 2, y, true);
        },
        Instruction::AndReg(x, y) => {
            lemma_keyword_at(words, Keyword::And);
            lemma_byte_operand(words, 1, x, true);
            lemma_byte_operand(words, 2, y, true);
        },
        Instruction::XorReg(x, y) => {
            lemma_keyword_at(words, Keyword::Xor);
            lemma_byte_operand(words, 1, x, true);
            lemma_byte_operand(words, 2, y, true);
        },
        Instruction::SubReg(x, y) => {
            lemma_keyword_at(words, Keyword::Sub);
            lemma_byte_operand(words, 1, x, true);
            lemma_byte_operand(words, 2, y, true);
        },
        Instruction::SubFrom(x, y) => {
            lemma_keyword_at(words, Keyword::Subn);
            lemma_byte_operand(words, 1, x, true);
            lemma_byte_operand(words, 2, y, true);
        },
        _ => {},
    }
}

/// The words of the printed mnemonic of an instruction on one register are parsed as that
/// instruction.
#[verifier::rlimit(50)]
proof fn lemma_parse_register(text: Seq<char>, instruction: Instruction)
    requires
        instruction is Rsh || instruction is Lsh || instruction is SkipKeyPressed || instruction is SkipKeyNotPressed,
    ensures
        parse_words(text, small_words(instruction)) == Ok::<Instruction, ParseFailure>(instruction),
{
    let words = small_words(instruction);
    lemma_keywords();
    lemma_places(0);
    match instruction {
        Instruction::Rsh(x) => {
            lemma_keyword_at(words, Keyword::Rsh);
            lemma_byte_operand(words, 1, x, true);
        },
        Instruction::Lsh(x) => {
            lemma_keyword_at(words, Keyword::Lsh);
            lemma_byte_operand(words, 1, x, true);
        },
        Instruction::SkipKeyPressed(x) => {
            lemma_keyword_at(words, Keyword::Skp);
            lemma_byte_operand(words, 1, x, true);
        },
        Instruction::SkipKeyNotPressed(x) => {
            lemma_keyword_at(words, Keyword::Sknp);
            lemma_byte_operand(words, 1, x, true);
        },
        _ => {},
    }
}

/// The words of the printed mnemonic of an instruction on a register and a place are parsed as that
/// instruction.
#[verifier::rlimit(50)]
proof fn lemma_parse_placed(text: Seq<char>, instruction: Instruction)
    requires
        instruction is GetDelay || instruction is WaitForKey || instruction is SetDelay || instruction is SetSound || instruction is SetChar || instruction is BCD || instruction is RegDump || instruction is RegLoad || instruction is AddMemPtr,
    ensures
        parse_words(text, small_words(instruction)) == Ok::<Instruction, ParseFailure>(instruction),
{
    let words = small_words(instruction);
    lemma_keywords();
    lemma_places(0);
    match instruction {
        Instruction::GetDelay(x) => {
            lemma_keyword_at(words, Keyword::Ld);
            lemma_byte_operand(words, 1, x, true);
        },
        Instruction::WaitForKey(x) => {
            lemma_keyword_at(words, Keyword::Ld);
            lemma_byte_operand(words, 1, x, true);
        },
        Instruction::SetDelay(x) => {
            lemma_keyword_at(words, Keyword::Ld);
            lemma_byte_operand(words, 2, x, true);
        },
        Instruction::SetSound(x) => {
            lemma_keyword_at(words, Keyword::Ld);
            lemma_byte_operand(words, 2, x, true);
        },
        Instruction::SetChar(x) => {
            lemma_keyword_at(words, Keyword::Ld);
            lemma_byte_operand(words, 2, x, true);
        },
        Instruction::BCD(x) => {
            lemma_keyword_at(words, Keyword::Ld);
            lemma_byte_operand(words, 2, x, true);
        },
        Instruction::RegDump(x) => {
            lemma_keyword_at(words, Keyword::Ld);
            lemma_byte_operand(words, 2, x, true);
        },
        Instruction::RegLoad(x) => {
            lemma_keyword_at(words, Keyword::Ld);
            lemma_byte_operand(words, 1, x, true);
        },
        Instruction::AddMemPtr(x) => {
            lemma_keyword_at(words, Keyword::Add);
            lemma_byte_operand(words, 2, x, true);
        },
        _ => {},
    }
}

/// The words of the printed mnemonic of a draw instruction are parsed as that
/// instruction.
#[verifier::rlimit(50)]
proof fn lemma_parse_draw(text: Seq<char>, instruction: Instruction)
    requires
        instruction is Draw,
    ensures
        parse_words(text, small_words(instruction)) == Ok::<Instruction, ParseFailure>(instruction),
{
    let words = small_words(instruction);
    lemma_keywords();
    lemma_places(0);
    match instruction {
        Instruction::Draw(x, y, n) => {
            lemma_keyword_at(words, Keyword::Drw);
            lemma_byte_operand(words, 1, x, true);
            lemma_byte_operand(words, 2, y, true);
            lemma_byte_operand(words, 3, n, false);
        },
        _ => {},
    }
}

/// The words of a printed mnemonic, in small letters, are parsed as the
/// instruction that was printed.
proof fn lemma_parse_small_words(text: Seq<char>, instruction: Instruction)
    ensures
        parse_words(text, small_words(instruction)) == Ok::<Instruction, ParseFailure>(instruction),
{
    if instruction is Nop || instruction is ClearScreen || instruction is Ret {
        lemma_parse_plain(text, instruction);
    }
    if instruction is Jump || instruction is Call || instruction is SetMemPtr || instruction is JumpOffset {
        lemma_parse_address(text, instruction);
    }
    if instruction is SkipEqImm || instruction is SkipNeImm || instruction is SetImm || instruction is AddImm || instruction is Rand {
        lemma_parse_immediate(text, instruction);
    }
    if instruction is SkipEqReg || instruction is SkipNeReg || instruction is SetReg || instruction is AddReg || instruction is OrReg || instruction is AndReg || instruction is XorReg || instruction is SubReg || instruction is SubFrom {
        lemma_parse_registers(text, instruction);
    }
    if instruction is Rsh || instruction is Lsh || instruction is SkipKeyPressed || instruction is SkipKeyNotPressed {
        lemma_parse_register(text, instruction);
    }
    if instruction is GetDelay || instruction is WaitForKey || instruction is SetDelay || instruction is SetSound || instruction is SetChar || instruction is BCD || instruction is RegDump || instruction is RegLoad || instruction is AddMemPtr {
        lemma_parse_placed(text, instruction);
    }
    if instruction is Draw {
        lemma_parse_draw(text, instruction);
    }
}

/// Parsing undoes printing: the mnemonic that an instruction is printed as
/// is parsed as that instruction.
pub proof fn lemma_parse_printed(instruction: Instruction)
    ensures
        parse_mnemonic(mnemonic_text(instruction)) == Ok::<Instruction, ParseFailure>(instruction),
{
    lemma_split_printed(instruction);
    lemma_small_words(instruction);
    lemma_parse_small_words(mnemonic_text(instruction), instruction);
}

} // verus!
