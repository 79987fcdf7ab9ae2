//! Basic blocks: the runs of lines of a program that end at an instruction
//! which may transfer control.

use crate::grammar::LineView;
use crate::instructions::Instruction;
use crate::labels::Line;
use vstd::prelude::*;

verus! {

/// The index of a line of a program.
#[derive(Debug, Clone, Copy, PartialEq, Eq, Structural)]
pub struct InstructionHandle(pub usize);

/// A run of lines from `start` to `end`, both included. Only the last line
/// may transfer control.
#[derive(Debug, Clone, Copy, PartialEq, Eq, Structural)]
pub struct BasicBlock {
    pub start: InstructionHandle,
    pub end: InstructionHandle,
}

/// Whether a line ends a basic block: whether it is a call, a jump or a
/// skip.
pub open spec fn ends_block(line: LineView) -> bool {
    line matches LineView::Instr(instruction) && (instruction is Call || instruction is Jump
        || instruction is JumpOffset || instruction is SkipEqImm || instruction is SkipEqReg
        || instruction is SkipKeyNotPressed || instruction is SkipKeyPressed
        || instruction is SkipNeImm || instruction is SkipNeReg)
}

/// The index at which the block that is open after the first `count` lines
/// starts: the index after the last line that ended a block, or 0.
pub open spec fn open_start(lines: Seq<LineView>, count: int) -> int
    decreases count,
{
    if count <= 0 {
        0
    } else if ends_block(lines[count - 1]) {
        count
    } else {
        open_start(lines, count - 1)
    }
}

/// The basic blocks among the first `count` lines, each as its first and
/// its last index. The lines after the last line that ends a block belong
/// to no block.
pub open spec fn blocks_of(lines: Seq<LineView>, count: int) -> Seq<(int, int)>
    decreases count,
{
    if count <= 0 {
        Seq::empty()
    } else if ends_block(lines[count - 1]) {
        blocks_of(lines, count - 1).push((open_start(lines, count - 1), count - 1))
    } else {
        blocks_of(lines, count - 1)
    }
}

/// The basic blocks of a list, as pairs of indices.
pub open spec fn spans(blocks: Seq<BasicBlock>) -> Seq<(int, int)> {
    Seq::new(blocks.len(), |k: int| (blocks[k].start.0 as int, blocks[k].end.0 as int))
}

impl BasicBlock {
    /// The basic blocks of a program.
    pub fn blocks(instructions: &[Line]) -> (blocks: Vec<BasicBlock>)
        ensures
            spans(blocks@) == blocks_of(
                Seq::new(instructions@.len(), |k: int| instructions@[k]@),
                instructions@.len() as int,
            ),
    {
        let ghost lines = Seq::new(instructions@.len(), |k: int| instructions@[k]@);
        let mut blocks: Vec<BasicBlock> = Vec::new();
        let mut maybe_start: Option<InstructionHandle> = None;
        let mut i: usize = 0;
        assert(spans(blocks@) =~= blocks_of(lines, 0));
        while i < instructions.len()
            invariant
                i <= instructions@.len(),
                lines == Seq::new(instructions@.len(), |k: int| instructions@[k]@),
                spans(blocks@) == blocks_of(lines, i as int),
                match maybe_start {
                    Some(start) => start.0 < i && start.0 == open_start(lines, i as int),
                    None => open_start(lines, i as int) == i,
                },
            decreases instructions@.len() - i,
        {
            let start = match maybe_start {
                Some(start) => start,
                None => InstructionHandle(i),
            };
            maybe_start = Some(start);
            let ends = match &instructions[i] {
                Line::Instr(instr) => match instr {
                    Instruction::Call(_)
                    | Instruction::Jump(_)
                    | Instruction::JumpOffset(_)
                    | Instruction::SkipEqImm(_, _)
                    | Instruction::SkipEqReg(_, _)
                    | Instruction::SkipKeyNotPressed(_)
                    | Instruction::SkipKeyPressed(_)
                    | Instruction::SkipNeImm(_, _)
                    | Instruction::SkipNeReg(_, _) => true,
                    _ => false,
                },
                _ => false,
            };
            assert(ends == ends_block(lines[i as int]));
            if ends {
                let ghost before = spans(blocks@);
                blocks.push(BasicBlock { start, end: InstructionHandle(i) });
                assert(spans(blocks@) =~= before.push((start.0 as int, i as int)));
                maybe_start = None;
            }
            i += 1;
        }
        blocks
    }
}

} // verus!
