use chip8::basicblock::{BasicBlock, InstructionHandle};
use chip8::instructions::Instruction;
use chip8::labels::Line;

fn block(start: usize, end: usize) -> BasicBlock {
    BasicBlock { start: InstructionHandle(start), end: InstructionHandle(end) }
}

#[test]
fn blocks_end_at_jumps_calls_and_skips() {
    let program = [
        Line::Instr(Instruction::SetImm(0, 1)),
        Line::Instr(Instruction::AddImm(0, 1)),
        Line::Instr(Instruction::SkipEqImm(0, 9)),
        Line::Instr(Instruction::Jump(0x202)),
        Line::Data(vec![1, 2, 3]),
        Line::Instr(Instruction::Ret),
        Line::Instr(Instruction::Call(0x300)),
        Line::Instr(Instruction::SkipKeyPressed(1)),
        Line::Instr(Instruction::Nop),
    ];
    assert_eq!(
        BasicBlock::blocks(&program),
        vec![block(0, 2), block(3, 3), block(4, 6), block(7, 7)]
    );
}

#[test]
fn lines_after_the_last_transfer_belong_to_no_block() {
    assert_eq!(BasicBlock::blocks(&[]), vec![]);
    assert_eq!(
        BasicBlock::blocks(&[Line::Instr(Instruction::Nop), Line::Instr(Instruction::Ret)]),
        vec![]
    );
    for instruction in [
        Instruction::Call(0),
        Instruction::Jump(0),
        Instruction::JumpOffset(0),
        Instruction::SkipEqImm(0, 0),
        Instruction::SkipEqReg(0, 0),
        Instruction::SkipKeyNotPressed(0),
        Instruction::SkipKeyPressed(0),
        Instruction::SkipNeImm(0, 0),
        Instruction::SkipNeReg(0, 0),
    ] {
        assert_eq!(
            BasicBlock::blocks(&[Line::Instr(Instruction::Nop), Line::Instr(instruction)]),
            vec![block(0, 1)]
        );
    }
}
