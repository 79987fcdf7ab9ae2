use chip8::emulator::{
    add_with_overflow, do_instruction, get_bit, get_instruction, Memory, Registers,
    INSTRUCTION_SIZE,
};
use chip8::instructions::Instruction;

#[test]
fn test_bytes() {
    let test: u8 = 0b01001011;
    let test_bools = [false, true, false, false, true, false, true, true];
    for i in 0..8 {
        assert_eq!(get_bit(test, i), test_bools[i], "test failed on case {i}");
    }
}

#[test]
fn test_set_row() {
    let mut memory = Memory::default();
    let collision = memory.set_row(0, 0, 0xff);
    assert!(!collision);
    let collision = memory.set_row(0, 0, 0xff);
    assert!(collision);
    let collision = memory.set_row(0, 0, 0xff);
    assert!(!collision)
}

#[test]
fn test_overflow_add() {
    assert_eq!(add_with_overflow(255, 1), (0, true));
    assert_eq!(add_with_overflow(255, 255), (254, true));
    assert_eq!(add_with_overflow(128, 127), (255, false));
}

#[test]
fn test_instructions() {
    assert_eq!(<u16 as Into<Instruction>>::into(0x00E0_u16), Instruction::ClearScreen);
    assert_eq!(<u16 as Into<Instruction>>::into(0x1e35_u16), Instruction::Jump(0xe35));
    assert_eq!(<u16 as Into<Instruction>>::into(0x5e30_u16), Instruction::SkipEqReg(0xe, 0x3));
}

#[test]
fn test_instruction_in_memory() {
    let instructions: [u8; 6] = [0x00, 0xe0, 0x1e, 0x35, 0x5e, 0x30];
    let mut memory = Memory::default();
    memory.ram[1024..1024 + instructions.len()].copy_from_slice(&instructions);

    let mut registers = Registers::default();
    registers.pc = 1024;
    assert_eq!(get_instruction(&memory, &registers), Instruction::ClearScreen);
    registers.pc += INSTRUCTION_SIZE;
    assert_eq!(get_instruction(&memory, &registers), Instruction::Jump(0xe35));
    registers.pc += INSTRUCTION_SIZE;
    assert_eq!(get_instruction(&memory, &registers), Instruction::SkipEqReg(0xe, 0x3))
}

#[test]
fn test_jump() {
    let rom = [0x12, 0x04, 0x00, 0x00, 0x12, 0x00];
    let mut memory = Memory::default();
    memory.load_rom(&rom);
    let mut registers = Registers::default();
    do_instruction(&mut memory, &mut registers).unwrap();
    assert_eq!(registers.pc, 0x204);
    do_instruction(&mut memory, &mut registers).unwrap();
    assert_eq!(registers.pc, 0x200)
}

#[test]
fn test_call_ret() {
    let rom = [0x22, 0x04, 0x00, 0x00, 0x00, 0xEE];
    let mut memory = Memory::default();
    memory.load_rom(&rom);
    let mut registers = Registers::default();
    assert_eq!(registers.pc, 0x200);
    do_instruction(&mut memory, &mut registers).unwrap();
    assert_eq!(registers.pc, 0x204);
    assert_eq!(memory.stack.len(), 1);
    assert_eq!(memory.stack[memory.stack.len() - 1], 0x200);
    do_instruction(&mut memory, &mut registers).unwrap();
    assert_eq!(registers.pc, 0x202);
    assert_eq!(memory.stack.len(), 0)
}

#[test]
fn test_load_char() {
    let instrs: Vec<u16> = ["ld v0 1", "ld v1 0", "ld v2 0", "ld f 0", "drw 1 2 5"]
        .into_iter()
        .map(|s| Instruction::from_mnemonic(s).unwrap().into())
        .collect();
    let rom: Vec<u8> = instrs.iter().flat_map(|s| s.to_be_bytes()).collect();
    let mut memory = Memory::default();
    memory.load_rom(&rom);
    let mut registers = Registers::default();
    for _ in 0..instrs.len() {
        do_instruction(&mut memory, &mut registers).unwrap();
    }
    assert!(memory.display.get(2, 0)); // xx*x
    assert!(memory.display.get(1, 1));
    assert!(memory.display.get(2, 1)); // x**x
    assert!(memory.display.get(2, 2)); // xx*x
    assert!(memory.display.get(2, 3)); // xx*x
    assert!((1..4).all(|x| memory.display.get(x, 4))); // x***
}
