use chip8::instructions::Instruction;

fn parse(text: &str) -> Instruction {
    Instruction::from_mnemonic(text).unwrap()
}

fn failure(text: &str) -> (String, String) {
    let error = Instruction::from_mnemonic(text).unwrap_err();
    (error.mnemonic, error.message)
}

#[test]
fn mnemonics_are_printed_as_documented() {
    assert_eq!(Instruction::Nop.to_string(), "NOP");
    assert_eq!(Instruction::ClearScreen.to_string(), "CLS");
    assert_eq!(Instruction::Ret.to_string(), "RET");
    assert_eq!(Instruction::Jump(512).to_string(), "JP 512");
    assert_eq!(Instruction::Call(4095).to_string(), "CALL V4095");
    assert_eq!(Instruction::SkipEqImm(1, 200).to_string(), "SE V1 200");
    assert_eq!(Instruction::SkipEqReg(1, 2).to_string(), "SE V1 V2");
    assert_eq!(Instruction::SkipNeImm(10, 0).to_string(), "SNE V10 0");
    assert_eq!(Instruction::SkipNeReg(15, 14).to_string(), "SNE V15 V14");
    assert_eq!(Instruction::SetImm(3, 255).to_string(), "LD V3 255");
    assert_eq!(Instruction::AddImm(3, 9).to_string(), "ADD V3 9");
    assert_eq!(Instruction::AddMemPtr(4).to_string(), "ADD I V4");
    assert_eq!(Instruction::AddReg(4, 5).to_string(), "ADD V4 V5");
    assert_eq!(Instruction::SetReg(4, 5).to_string(), "LD V4 V5");
    assert_eq!(Instruction::OrReg(4, 5).to_string(), "OR V4 V5");
    assert_eq!(Instruction::AndReg(4, 5).to_string(), "AND V4 V5");
    assert_eq!(Instruction::XorReg(4, 5).to_string(), "XOR V4 V5");
    assert_eq!(Instruction::SubReg(4, 5).to_string(), "SUB V4 V5");
    assert_eq!(Instruction::Rsh(6).to_string(), "RSH V6");
    assert_eq!(Instruction::SubFrom(4, 5).to_string(), "SUBN V4 V5");
    assert_eq!(Instruction::Lsh(6).to_string(), "LSH V6");
    assert_eq!(Instruction::SetMemPtr(1000).to_string(), "LD I 1000");
    assert_eq!(Instruction::JumpOffset(1000).to_string(), "JP V0 1000");
    assert_eq!(Instruction::Rand(7, 15).to_string(), "RND V7 15");
    assert_eq!(Instruction::Draw(1, 2, 5).to_string(), "DRW V1 V2 5");
    assert_eq!(Instruction::SkipKeyPressed(8).to_string(), "SKP V8");
    assert_eq!(Instruction::SkipKeyNotPressed(8).to_string(), "SKNP V8");
    assert_eq!(Instruction::GetDelay(9).to_string(), "LD V9 DT");
    assert_eq!(Instruction::WaitForKey(9).to_string(), "LD V9 K");
    assert_eq!(Instruction::SetDelay(9).to_string(), "LD DT V9");
    assert_eq!(Instruction::SetSound(9).to_string(), "LD ST V9");
    assert_eq!(Instruction::SetChar(9).to_string(), "LD F V9");
    assert_eq!(Instruction::BCD(9).to_string(), "LD B V9");
    assert_eq!(Instruction::RegDump(9).to_string(), "LD [I] V9");
    assert_eq!(Instruction::RegLoad(9).to_string(), "LD V9 [I]");
}

#[test]
fn parsing_undoes_printing() {
    for word in 0..=u16::MAX {
        let instruction = Instruction::decode(word);
        assert_eq!(parse(&instruction.to_string()), instruction);
    }
    for instruction in [
        Instruction::Jump(65535),
        Instruction::Call(4096),
        Instruction::SetImm(255, 255),
        Instruction::Draw(16, 200, 99),
        Instruction::SetMemPtr(60000),
    ] {
        assert_eq!(parse(&instruction.to_string()), instruction);
    }
}

#[test]
fn keywords_are_matched_without_regard_to_case() {
    assert_eq!(parse("cls"), Instruction::ClearScreen);
    assert_eq!(parse("CLS"), Instruction::ClearScreen);
    assert_eq!(parse("Ld V1 v2"), Instruction::SetReg(1, 2));
    assert_eq!(parse("LD I 7"), Instruction::SetMemPtr(7));
    assert_eq!(parse("ld [I] V3"), Instruction::RegDump(3));
}

#[test]
fn the_shape_of_the_operand_selects_the_instruction() {
    assert_eq!(parse("se v1 v2"), Instruction::SkipEqReg(1, 2));
    assert_eq!(parse("se v1 2"), Instruction::SkipEqImm(1, 2));
    assert_eq!(parse("sne v1 v2"), Instruction::SkipNeReg(1, 2));
    assert_eq!(parse("sne v1 2"), Instruction::SkipNeImm(1, 2));
    assert_eq!(parse("add v1 v2"), Instruction::AddReg(1, 2));
    assert_eq!(parse("add v1 2"), Instruction::AddImm(1, 2));
    assert_eq!(parse("add i v2"), Instruction::AddMemPtr(2));
    assert_eq!(parse("ld v1 v2"), Instruction::SetReg(1, 2));
    assert_eq!(parse("ld v1 2"), Instruction::SetImm(1, 2));
    assert_eq!(parse("jp 7"), Instruction::Jump(7));
    assert_eq!(parse("jp v0 7"), Instruction::JumpOffset(7));
}

#[test]
fn the_register_marker_may_be_left_out() {
    assert_eq!(parse("drw 1 2 5"), Instruction::Draw(1, 2, 5));
    assert_eq!(parse("ld f 0"), Instruction::SetChar(0));
    assert_eq!(parse("ld 4 +7"), Instruction::SetImm(4, 7));
    assert_eq!(parse("call 0512"), Instruction::Call(512));
    assert_eq!(parse("rsh 3 ignored words"), Instruction::Rsh(3));
}

#[test]
fn a_missing_operand_is_an_error() {
    assert_eq!(failure("jp"), ("jp".to_string(), "Missing argument 1".to_string()));
    assert_eq!(failure("LD V1"), ("ld v1".to_string(), "Missing argument 2".to_string()));
    assert_eq!(failure("se"), ("se".to_string(), "Missing argument 1".to_string()));
    assert_eq!(
        failure("drw v1\tv2"),
        ("drw v1 v2".to_string(), "Missing argument 3".to_string())
    );
    assert_eq!(failure("ld"), ("ld".to_string(), "Missing argument 1".to_string()));
    assert_eq!(failure("add i"), ("add i".to_string(), "Missing argument 2".to_string()));
}

#[test]
fn a_numeral_that_cannot_be_read_is_an_error() {
    assert_eq!(
        failure("ld v1 256"),
        ("ld v1 256".to_string(), "Couldn't parse value 256".to_string())
    );
    assert_eq!(
        failure("LD VX 2"),
        ("ld vx 2".to_string(), "Couldn't parse value x".to_string())
    );
    assert_eq!(
        failure("jp 65536"),
        ("jp 65536".to_string(), "Couldn't parse value 65536".to_string())
    );
    assert_eq!(
        failure("ld v1 0x10"),
        ("ld v1 0x10".to_string(), "Couldn't parse value 0x10".to_string())
    );
    assert_eq!(
        failure("ld v1 -1"),
        ("ld v1 -1".to_string(), "Couldn't parse value -1".to_string())
    );
    assert_eq!(
        failure("ld v1  2"),
        ("ld v1  2".to_string(), "Couldn't parse value ".to_string())
    );
    assert_eq!(failure("ld v +"), ("ld v +".to_string(), "Couldn't parse value ".to_string()));
    assert_eq!(
        failure("or v1 v"),
        ("or v1 v".to_string(), "Couldn't parse value ".to_string())
    );
    assert_eq!(
        failure("ld v1 99999999999999999999999999"),
        (
            "ld v1 99999999999999999999999999".to_string(),
            "Couldn't parse value 99999999999999999999999999".to_string()
        )
    );
}

#[test]
fn the_first_operand_that_fails_is_reported() {
    assert_eq!(
        failure("drw a b c"),
        ("drw a b c".to_string(), "Couldn't parse value a".to_string())
    );
    assert_eq!(
        failure("drw 1 b c"),
        ("drw 1 b c".to_string(), "Couldn't parse value b".to_string())
    );
}

#[test]
fn an_unknown_keyword_is_an_error_that_keeps_the_text() {
    assert_eq!(
        failure("JMP V512"),
        ("JMP V512".to_string(), "Unknown instruction".to_string())
    );
    assert_eq!(failure(""), ("".to_string(), "Unknown instruction".to_string()));
    assert_eq!(failure(" cls"), (" cls".to_string(), "Unknown instruction".to_string()));
    assert_eq!(failure("clss"), ("clss".to_string(), "Unknown instruction".to_string()));
}

#[test]
fn any_white_space_character_separates_words() {
    assert_eq!(parse("ld\u{a0}v1\u{3000}2"), Instruction::SetImm(1, 2));
    assert_eq!(parse("ld\tv1\n2"), Instruction::SetImm(1, 2));
}

#[test]
fn only_ascii_letters_change_case() {
    assert_eq!(
        failure("ÀB"),
        ("ÀB".to_string(), "Unknown instruction".to_string())
    );
    assert_eq!(
        failure("LD É 1"),
        ("ld É 1".to_string(), "Couldn't parse value É".to_string())
    );
}
