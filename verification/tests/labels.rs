use chip8::instructions::Instruction;
use chip8::labels::{parse_program, Line, ResolveError};

#[test]
fn test_parse1() {
    let instructions = r#"start:
ld v0 1;
ld v1 10;
loop:
add v0 1;
se v0 v1;
jp loop;
end:
jp end;
ld v111 99;
"#;
    let program = parse_program(instructions).unwrap();
    assert_eq!(program.instructions.len(), 7);
    assert_eq!(program.labels.get("start"), Some(&0));
    assert_eq!(program.labels.get("loop"), Some(&2));
    assert_eq!(program.labels.get("end"), Some(&5));
}

#[test]
fn test_parse2() {
    let instructions = r#"start:
ld v0 1;
ld v1 0x10;
loop:
add v0 1;
se v0 v1;
jp loop;
bytes 0x1 0x2 0x3 0x4 0x5;
end:
jp end;
jp start;
"#;
    let mut program = parse_program(instructions).unwrap();
    assert_eq!(program.instructions.len(), 8);
    program.fix_references().unwrap();
    assert_eq!(program.instructions.len(), 8);
    let last = Line::Instr(Instruction::Jump(0x200));
    assert_eq!(*program.instructions.last().unwrap(), last);
    let intended = Line::Instr(Instruction::Jump(0x20f));
    assert_eq!(program.instructions[6], intended);
}

#[test]
fn resolves_labels_without_semicolons() {
    let source = "start:\nld v0 1\nld v1 10\nloop:\nadd v0 1\nse v0 v1\njp loop\nend:\njp end\n";
    let mut program = parse_program(source).unwrap();
    assert_eq!(program.instructions.len(), 6);
    assert_eq!(program.labels.get("start"), Some(&0));
    assert_eq!(program.labels.get("loop"), Some(&2));
    assert_eq!(program.labels.get("end"), Some(&5));
    assert_eq!(program.labels.get("nowhere"), None);
    assert_eq!(program.references[4], Some("loop".to_string()));
    assert_eq!(program.references[5], Some("end".to_string()));
    assert_eq!(program.references[0], None);
    program.fix_references().unwrap();
    assert_eq!(program.instructions[5], Line::Instr(Instruction::Jump(0x20A)));
    assert_eq!(program.instructions[4], Line::Instr(Instruction::Jump(0x204)));
    assert_eq!(program.instructions[3], Line::Instr(Instruction::SkipEqReg(0, 1)));
}

#[test]
fn compiles_instructions_and_data_in_order() {
    let mut program =
        parse_program("call sub\nbytes 0xAB 0xcd 0x0\nsub:\nret\njp 0x2f0\n").unwrap();
    program.fix_references().unwrap();
    assert_eq!(program.instructions[0], Line::Instr(Instruction::Call(0x205)));
    assert_eq!(program.instructions[1], Line::Data(vec![0xAB, 0xCD, 0x00]));
    assert_eq!(
        program.compile(),
        vec![0x22, 0x05, 0xAB, 0xCD, 0x00, 0x00, 0xEE, 0x12, 0xF0]
    );
}

#[test]
fn an_undefined_label_is_an_error_and_changes_nothing() {
    let mut program = parse_program("cls\njp nowhere\n").unwrap();
    assert_eq!(program.fix_references(), Err(ResolveError::UndefinedLabel(1)));
    assert_eq!(program.instructions[1], Line::Instr(Instruction::Jump(0)));
}

#[test]
fn a_label_past_the_address_range_is_an_error() {
    let mut source = String::from("jp far\n");
    for _ in 0..1791 {
        source.push_str("nop\n");
    }
    source.push_str("far:\n");
    let mut program = parse_program(&source).unwrap();
    assert_eq!(program.labels.get("far"), Some(&1792));
    assert_eq!(program.fix_references(), Err(ResolveError::AddressOutOfRange(0)));

    let mut source = String::from("jp far\n");
    for _ in 0..1790 {
        source.push_str("nop\n");
    }
    source.push_str("far:\n");
    let mut program = parse_program(&source).unwrap();
    program.fix_references().unwrap();
    assert_eq!(program.instructions[0], Line::Instr(Instruction::Jump(0xFFE)));
}

#[test]
fn a_later_definition_of_a_label_wins() {
    let mut program = parse_program("a:\nnop\na:\njp a\n").unwrap();
    assert_eq!(program.labels.get("a"), Some(&1));
    program.fix_references().unwrap();
    assert_eq!(program.instructions[1], Line::Instr(Instruction::Jump(0x202)));
}

#[test]
fn every_statement_form_is_parsed() {
    let source = "cls; ret; nop\n\
                  jp 512; jp V0 0x300; call 0x2AC\n\
                  se v1 7; se v1 v2; sne v1 0x10; sne v1 V2\n\
                  add v3 200; add v3 v4; add i v5\n\
                  sub v1 v2; subn v1 v2; or v1 v2; and v1 v2; xor v1 v2\n\
                  rnd v6 0xF; drw v1 v2 5\n\
                  rsh v7; lsh v8; skp v9; sknp v10\n\
                  ld i 0x123; ld [i] v3; ld dt v4; ld st v5; ld f v6; ld b v7\n\
                  LD v1 DT; ld v2 k; ld v3 [I]; ld v4 v5; ld v6 255\n";
    let program = parse_program(source).unwrap();
    let expected = [
        Instruction::ClearScreen,
        Instruction::Ret,
        Instruction::Nop,
        Instruction::Jump(512),
        Instruction::JumpOffset(0x300),
        Instruction::Call(0x2AC),
        Instruction::SkipEqImm(1, 7),
        Instruction::SkipEqReg(1, 2),
        Instruction::SkipNeImm(1, 16),
        Instruction::SkipNeReg(1, 2),
        Instruction::AddImm(3, 200),
        Instruction::AddReg(3, 4),
        Instruction::AddMemPtr(5),
        Instruction::SubReg(1, 2),
        Instruction::SubFrom(1, 2),
        Instruction::OrReg(1, 2),
        Instruction::AndReg(1, 2),
        Instruction::XorReg(1, 2),
        Instruction::Rand(6, 15),
        Instruction::Draw(1, 2, 5),
        Instruction::Rsh(7),
        Instruction::Lsh(8),
        Instruction::SkipKeyPressed(9),
        Instruction::SkipKeyNotPressed(10),
        Instruction::SetMemPtr(0x123),
        Instruction::RegDump(3),
        Instruction::SetDelay(4),
        Instruction::SetSound(5),
        Instruction::SetChar(6),
        Instruction::BCD(7),
        Instruction::GetDelay(1),
        Instruction::WaitForKey(2),
        Instruction::RegLoad(3),
        Instruction::SetReg(4, 5),
        Instruction::SetImm(6, 255),
    ];
    assert_eq!(program.instructions.len(), expected.len());
    for (line, instruction) in program.instructions.iter().zip(expected) {
        assert_eq!(*line, Line::Instr(instruction));
    }
    assert!(program.references.iter().all(|r| r.is_none()));
}

fn failure(source: &str) -> (usize, String, String) {
    match parse_program(source) {
        Ok(_) => panic!("{source:?} was parsed"),
        Err(e) => (e.line_number, e.mnemonic, e.message),
    }
}

fn span(source: &str) -> (usize, usize, usize) {
    match parse_program(source) {
        Ok(_) => panic!("{source:?} was parsed"),
        Err(e) => (e.line_number, e.start, e.end),
    }
}

#[test]
fn parse_errors_carry_the_span_of_the_statement() {
    assert_eq!(span("bad"), (0, 0, 3));
    assert_eq!(span("cls\n  foo v1  \n"), (1, 2, 8));
    assert_eq!(span("cls; ret ;\t bad one ; worse"), (0, 12, 19));
    assert_eq!(span("nop\n;;x"), (1, 2, 3));
    assert_eq!(span("ä; ö ;ü:"), (0, 0, 1));
    assert_eq!(span("cls; ö ;ü:"), (0, 5, 6));
    assert_eq!(span("cls;nop ;ü:"), (0, 9, 11));
    let source = "cls;  ld v1 256 ;\r\n";
    let error = parse_program(source).unwrap_err();
    let line: Vec<char> = source.lines().nth(error.line_number).unwrap().chars().collect();
    let statement: String = line[error.start..error.end].iter().collect();
    assert_eq!(statement, "ld v1 256");
    assert_eq!(error.mnemonic, statement);
    assert_eq!(error.file_name, "");
    let error = error.with_path("game.asm");
    assert_eq!(error.file_name, "game.asm");
    assert_eq!((error.line_number, error.start, error.end), (0, 6, 15));
    assert_eq!(error.message, "Argument must be a single byte");
}

#[test]
fn parse_errors_carry_line_statement_and_reason() {
    assert_eq!(
        failure("cls\n  foo v1  \n"),
        (1, "foo v1".to_string(), "Unknown instruction".to_string())
    );
    assert_eq!(
        failure("ld 1 2"),
        (0, "ld 1 2".to_string(), "invalid register name".to_string())
    );
    assert_eq!(
        failure("nop\nnop\nld v1 256"),
        (2, "ld v1 256".to_string(), "Argument must be a single byte".to_string())
    );
    assert_eq!(
        failure("ld i 65536"),
        (0, "ld i 65536".to_string(), "expected u16".to_string())
    );
    assert_eq!(
        failure("ld i 0x10000"),
        (0, "ld i 0x10000".to_string(), "expected u16".to_string())
    );
    assert_eq!(
        failure("drw v1 v2"),
        (0, "drw v1 v2".to_string(), "wrong number of operands".to_string())
    );
    assert_eq!(
        failure("cls now"),
        (0, "cls now".to_string(), "wrong number of operands".to_string())
    );
    assert_eq!(
        failure("bytes 0x1 2"),
        (0, "bytes 0x1 2".to_string(), "invalid byte".to_string())
    );
    assert_eq!(
        failure("bytes 0x100"),
        (0, "bytes 0x100".to_string(), "invalid byte".to_string())
    );
    assert_eq!(
        failure("9lives:"),
        (0, "9lives:".to_string(), "invalid label".to_string())
    );
    assert_eq!(
        failure("jp a-b"),
        (0, "jp a-b".to_string(), "invalid label".to_string())
    );
    assert_eq!(
        failure("jp v1 5"),
        (0, "jp v1 5".to_string(), "invalid register name".to_string())
    );
    assert_eq!(
        failure("jp v0 there"),
        (0, "jp v0 there".to_string(), "expected u16".to_string())
    );
    assert_eq!(
        failure("sub v1 5"),
        (0, "sub v1 5".to_string(), "invalid register name".to_string())
    );
}

#[test]
fn the_first_failing_statement_is_reported() {
    assert_eq!(
        failure("cls; bad one; worse\nworst"),
        (0, "bad one".to_string(), "Unknown instruction".to_string())
    );
}

#[test]
fn blank_statements_and_carriage_returns_are_skipped() {
    let program = parse_program("\r\n ; cls ;; \r\nret;\r\n\n").unwrap();
    assert_eq!(
        program.instructions,
        vec![Line::Instr(Instruction::ClearScreen), Line::Instr(Instruction::Ret)]
    );
    assert_eq!(program.compile(), vec![0x00, 0xE0, 0x00, 0xEE]);
}
