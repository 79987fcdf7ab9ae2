use chip8::assembler::{disassemble, disassemble_instructions, to_binary, to_bytes};
use chip8::instructions::Instruction;

#[test]
fn assembles_one_word_per_mnemonic() {
    assert_eq!(
        to_binary("cls\nld v1 7;ld v2 8\n\nadd v1 v2;\njp 512").unwrap(),
        vec![0x00E0, 0x6107, 0x6208, 0x8124, 0x1200]
    );
    assert_eq!(to_binary("").unwrap(), Vec::<u16>::new());
    assert_eq!(to_binary("\n\n;;\n").unwrap(), Vec::<u16>::new());
}

#[test]
fn mnemonics_are_trimmed_and_line_ends_may_be_crlf() {
    assert_eq!(
        to_binary("  cls  ;\t ret\r\nnop;\r\n").unwrap(),
        vec![0x00E0, 0x00EE, 0x0000]
    );
}

#[test]
fn errors_carry_the_line_and_the_mnemonic() {
    let error = to_binary("cls\nret; bogus 1\nnop").unwrap_err();
    assert_eq!(error.line_number, 1);
    assert_eq!(error.error.mnemonic, "bogus 1");
    assert_eq!(error.error.message, "Unknown instruction");

    let error = to_binary("cls\n\n\nld v1").unwrap_err();
    assert_eq!(error.line_number, 3);
    assert_eq!(error.error.mnemonic, "ld v1");
    assert_eq!(error.error.message, "Missing argument 2");
}

#[test]
fn a_piece_of_white_space_is_no_mnemonic() {
    let error = to_binary("cls; ").unwrap_err();
    assert_eq!(error.line_number, 0);
    assert_eq!(error.error.mnemonic, "");
    assert_eq!(error.error.message, "Unknown instruction");
    assert_eq!(to_binary("cls\r").unwrap(), vec![0x00E0]);
}

#[test]
fn words_are_emitted_high_byte_first() {
    assert_eq!(
        to_bytes(&vec![0x00E0, 0x6107, 0xFFFE]),
        vec![0x00, 0xE0, 0x61, 0x07, 0xFF, 0xFE]
    );
    assert_eq!(to_bytes(&vec![]), Vec::<u8>::new());
}

#[test]
fn disassembly_stops_at_the_first_nop() {
    let rom = [0x00, 0xE0, 0x61, 0x07, 0x00, 0x00, 0x12, 0x00];
    assert_eq!(
        disassemble_instructions(&rom),
        vec![Instruction::ClearScreen, Instruction::SetImm(1, 7)]
    );
    assert_eq!(disassemble(&rom), "CLS;\nLD V1 7");
}

#[test]
fn disassembly_leaves_out_a_last_byte_without_partner() {
    assert_eq!(disassemble_instructions(&[0x12, 0x00, 0x13]), vec![Instruction::Jump(0x200)]);
    assert_eq!(disassemble(&[0x12]), "");
    assert_eq!(disassemble(&[]), "");
    assert_eq!(disassemble(&[0xFF, 0xFF, 0x00, 0xE0]), "");
}

#[test]
fn assembling_undoes_disassembling() {
    let rom = [0x22, 0x04, 0xD1, 0x25, 0xF3, 0x65, 0x8A, 0x0E, 0xBF, 0xFF];
    let text = disassemble(&rom);
    assert_eq!(text, "CALL V516;\nDRW V1 V2 5;\nLD V3 [I];\nLSH V10;\nJP V0 4095");
    assert_eq!(to_bytes(&to_binary(&text).unwrap()), rom);
}
