use chip8::labels::InstructionParser;
use chip8::labels::{Line, Parsed};
use chip8::instructions::Instruction;
use chip8::numeral::{push_decimal, push_hex, read_decimal, read_hex};
use chip8::text::{
    chars_of, is_whitespace, lines_of, split_text, string_of, to_lowercase, trimmed, words_of,
    Separator,
};

fn chars(s: &str) -> Vec<char> {
    s.chars().collect()
}

fn strings(words: Vec<Vec<char>>) -> Vec<String> {
    words.iter().map(|w| w.iter().collect()).collect()
}

#[test]
fn strings_and_characters_convert_both_ways() {
    assert_eq!(chars_of("aé\u{3000}z"), vec!['a', 'é', '\u{3000}', 'z']);
    assert_eq!(chars_of(""), Vec::<char>::new());
    assert_eq!(string_of(&vec!['x', 'ß', '1']), "xß1");
    assert_eq!(string_of(&vec![]), "");
}

#[test]
fn white_space_is_what_unicode_calls_white_space() {
    for code in 0..=0x10FFFFu32 {
        if let Some(c) = char::from_u32(code) {
            assert_eq!(is_whitespace(c), c.is_whitespace(), "{code:#x}");
        }
    }
}

#[test]
fn small_letters_are_ascii_only() {
    for code in 0..=0x10FFFFu32 {
        if let Some(c) = char::from_u32(code) {
            assert_eq!(to_lowercase(&vec![c]), vec![c.to_ascii_lowercase()]);
        }
    }
    assert_eq!(string_of(&to_lowercase(&chars("Hello, WÖRLD [I]"))), "hello, wÖrld [i]");
}

#[test]
fn every_separator_ends_a_piece() {
    assert_eq!(strings(split_text(&chars("a b  c "), Separator::Space)), ["a", "b", "", "c", ""]);
    assert_eq!(strings(split_text(&chars(""), Separator::Space)), [""]);
    assert_eq!(strings(split_text(&chars(";"), Separator::Char(';'))), ["", ""]);
    assert_eq!(strings(split_text(&chars("a b;c"), Separator::Char(';'))), ["a b", "c"]);
    for text in ["", " ", "ab", "a\tb\n\nc ", "  x", ";a; b;;"] {
        let expected: Vec<String> =
            text.split(|c: char| c.is_whitespace()).map(String::from).collect();
        assert_eq!(strings(split_text(&chars(text), Separator::Space)), expected);
        let expected: Vec<String> = text.split(';').map(String::from).collect();
        assert_eq!(strings(split_text(&chars(text), Separator::Char(';'))), expected);
    }
}

#[test]
fn words_are_the_runs_without_white_space() {
    for text in ["", "  ", "ab", " a\tb\n\nc ", "x  y"] {
        let expected: Vec<String> = text.split_whitespace().map(String::from).collect();
        assert_eq!(strings(words_of(&chars(text))), expected);
    }
}

#[test]
fn lines_end_at_line_feeds() {
    for text in ["", "\n", "a", "a\n", "a\nb", "a\r\nb\r\n", "a\n\nb\n\n", "a\r", "\r\n\r", "a\r\r\nb"] {
        let expected: Vec<String> = text.lines().map(String::from).collect();
        assert_eq!(strings(lines_of(&chars(text))), expected, "{text:?}");
    }
}

#[test]
fn trimming_takes_white_space_off_both_ends() {
    for text in ["", " ", "a", " a", "a ", "\t a b \u{a0}\n", "   "] {
        assert_eq!(string_of(&trimmed(&chars(text))), text.trim(), "{text:?}");
    }
}

#[test]
fn decimal_numerals_are_read_as_rust_reads_them() {
    for text in ["0", "7", "007", "255", "256", "+1", "+", "", "-1", "1 ", " 1", "1_0", "65535", "65536", "4294967296", "٣", "1a", "++1", "+0"] {
        assert_eq!(read_decimal(&chars(text), 0xFF), text.parse::<u8>().ok().map(u32::from), "{text:?}");
        assert_eq!(read_decimal(&chars(text), 0xFFFF), text.parse::<u16>().ok().map(u32::from), "{text:?}");
    }
    for n in 0..=0xFFFFu32 {
        assert_eq!(read_decimal(&chars(&n.to_string()), 0xFFFF), Some(n));
    }
    assert_eq!(read_decimal(&chars("10"), 9), None);
    assert_eq!(read_decimal(&chars("9"), 9), Some(9));
}

#[test]
fn hexadecimal_numerals_are_read_from_an_index_on() {
    assert_eq!(read_hex(&chars("0x1F"), 2, 0xFF), Some(0x1F));
    assert_eq!(read_hex(&chars("0xfF"), 2, 0xFF), Some(0xFF));
    assert_eq!(read_hex(&chars("0x100"), 2, 0xFF), None);
    assert_eq!(read_hex(&chars("0x100"), 2, 0xFFFF), Some(0x100));
    assert_eq!(read_hex(&chars("0x"), 2, 0xFF), None);
    assert_eq!(read_hex(&chars("0xg"), 2, 0xFF), None);
    assert_eq!(read_hex(&chars("0x+1"), 2, 0xFF), None);
    assert_eq!(read_hex(&chars("0x0000000000000001"), 2, 0xFF), Some(1));
    assert_eq!(read_hex(&chars("ffffffffffffffffffff"), 0, 0xFFFF), None);
    assert_eq!(read_hex(&chars("abc"), 0, 0xFFFF), Some(0xABC));
    assert_eq!(read_hex(&chars("abc"), 3, 0xFFFF), None);
}

#[test]
fn numerals_are_printed_without_leading_zeroes() {
    for n in [0u64, 1, 9, 10, 15, 16, 99, 100, 255, 256, 4095, 65535, u64::MAX] {
        let mut text = vec!['#'];
        push_decimal(&mut text, n);
        assert_eq!(string_of(&text), format!("#{n}"));
        let mut text = vec!['#'];
        push_hex(&mut text, n);
        assert_eq!(string_of(&text), format!("#{n:x}"));
    }
}

#[test]
fn single_statements_are_parsed() {
    match InstructionParser::parse("  loop:  ") {
        Ok(Parsed::Label(name)) => assert_eq!(name, "loop"),
        _ => panic!(),
    }
    match InstructionParser::parse("jp loop") {
        Ok(Parsed::Line(line, reference)) => {
            assert_eq!(line, Line::Instr(Instruction::Jump(0)));
            assert_eq!(reference, Some("loop".to_string()));
        }
        _ => panic!(),
    }
    match InstructionParser::parse("\tCALL   0x2F0 ") {
        Ok(Parsed::Line(line, reference)) => {
            assert_eq!(line, Line::Instr(Instruction::Call(0x2F0)));
            assert_eq!(reference, None);
        }
        _ => panic!(),
    }
    match InstructionParser::parse("BYTES 0xff 0x0") {
        Ok(Parsed::Line(line, reference)) => {
            assert_eq!(line, Line::Data(vec![255, 0]));
            assert_eq!(reference, None);
        }
        _ => panic!(),
    }
    match InstructionParser::parse("bytes") {
        Ok(Parsed::Line(line, _)) => assert_eq!(line, Line::Data(vec![])),
        _ => panic!(),
    }
    match InstructionParser::parse(" ld v1 ") {
        Err(error) => {
            assert_eq!(error.mnemonic, "ld v1");
            assert_eq!(error.message, "wrong number of operands");
        }
        _ => panic!(),
    }
    match InstructionParser::parse("") {
        Err(error) => {
            assert_eq!(error.mnemonic, "");
            assert_eq!(error.message, "Unknown instruction");
        }
        _ => panic!(),
    }
    match InstructionParser::parse(":") {
        Err(error) => assert_eq!(error.message, "invalid label"),
        _ => panic!(),
    }
}
