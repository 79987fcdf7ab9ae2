use chip8::instructions::Instruction;

fn every_shape() -> Vec<Instruction> {
    let mut all = vec![Instruction::ClearScreen, Instruction::Ret, Instruction::Nop];
    for a in [0u16, 1, 0x200, 0xABC, 0xFFF] {
        all.push(Instruction::Jump(a));
        all.push(Instruction::Call(a));
        all.push(Instruction::SetMemPtr(a));
        all.push(Instruction::JumpOffset(a));
    }
    for x in [0u8, 1, 7, 15] {
        for nn in [0u8, 1, 0x5A, 0xFF] {
            all.push(Instruction::SkipEqImm(x, nn));
            all.push(Instruction::SkipNeImm(x, nn));
            all.push(Instruction::SetImm(x, nn));
            all.push(Instruction::AddImm(x, nn));
            all.push(Instruction::Rand(x, nn));
        }
        for y in [0u8, 3, 15] {
            all.push(Instruction::SkipEqReg(x, y));
            all.push(Instruction::SkipNeReg(x, y));
            all.push(Instruction::SetReg(x, y));
            all.push(Instruction::OrReg(x, y));
            all.push(Instruction::AndReg(x, y));
            all.push(Instruction::XorReg(x, y));
            all.push(Instruction::AddReg(x, y));
            all.push(Instruction::SubReg(x, y));
            all.push(Instruction::SubFrom(x, y));
            for n in [0u8, 5, 15] {
                all.push(Instruction::Draw(x, y, n));
            }
        }
        all.push(Instruction::Rsh(x));
        all.push(Instruction::Lsh(x));
        all.push(Instruction::SkipKeyPressed(x));
        all.push(Instruction::SkipKeyNotPressed(x));
        all.push(Instruction::GetDelay(x));
        all.push(Instruction::WaitForKey(x));
        all.push(Instruction::SetDelay(x));
        all.push(Instruction::SetSound(x));
        all.push(Instruction::AddMemPtr(x));
        all.push(Instruction::SetChar(x));
        all.push(Instruction::BCD(x));
        all.push(Instruction::RegDump(x));
        all.push(Instruction::RegLoad(x));
    }
    all
}

#[test]
fn decoding_undoes_encoding() {
    for instruction in every_shape() {
        assert_eq!(Instruction::decode(instruction.encode()), instruction);
        let word: u16 = instruction.into();
        assert_eq!(Instruction::from(word), instruction);
    }
}

#[test]
fn every_word_decodes_and_reencodes_to_itself_unless_it_is_a_nop() {
    for word in 0..=u16::MAX {
        let instruction = Instruction::decode(word);
        if instruction != Instruction::Nop {
            assert_eq!(Instruction::decode(instruction.encode()), instruction);
        }
    }
}

#[test]
fn opcodes_are_the_documented_words() {
    assert_eq!(Instruction::Nop.encode(), 0x0000);
    assert_eq!(Instruction::ClearScreen.encode(), 0x00E0);
    assert_eq!(Instruction::Ret.encode(), 0x00EE);
    assert_eq!(Instruction::Jump(0x234).encode(), 0x1234);
    assert_eq!(Instruction::Call(0x234).encode(), 0x2234);
    assert_eq!(Instruction::SkipEqImm(0xA, 0xBC).encode(), 0x3ABC);
    assert_eq!(Instruction::SkipNeImm(0xA, 0xBC).encode(), 0x4ABC);
    assert_eq!(Instruction::SkipEqReg(0xA, 0xB).encode(), 0x5AB0);
    assert_eq!(Instruction::SetImm(0xA, 0xBC).encode(), 0x6ABC);
    assert_eq!(Instruction::AddImm(0xA, 0xBC).encode(), 0x7ABC);
    assert_eq!(Instruction::SetReg(0xA, 0xB).encode(), 0x8AB0);
    assert_eq!(Instruction::OrReg(0xA, 0xB).encode(), 0x8AB1);
    assert_eq!(Instruction::AndReg(0xA, 0xB).encode(), 0x8AB2);
    assert_eq!(Instruction::XorReg(0xA, 0xB).encode(), 0x8AB3);
    assert_eq!(Instruction::AddReg(0xA, 0xB).encode(), 0x8AB4);
    assert_eq!(Instruction::SubReg(0xA, 0xB).encode(), 0x8AB5);
    assert_eq!(Instruction::Rsh(0xA).encode(), 0x8A06);
    assert_eq!(Instruction::SubFrom(0xA, 0xB).encode(), 0x8AB7);
    assert_eq!(Instruction::Lsh(0xA).encode(), 0x8A0E);
    assert_eq!(Instruction::SkipNeReg(0xA, 0xB).encode(), 0x9AB0);
    assert_eq!(Instruction::SetMemPtr(0x234).encode(), 0xA234);
    assert_eq!(Instruction::JumpOffset(0x234).encode(), 0xB234);
    assert_eq!(Instruction::Rand(0xA, 0xBC).encode(), 0xCABC);
    assert_eq!(Instruction::Draw(0xA, 0xB, 0xC).encode(), 0xDABC);
    assert_eq!(Instruction::SkipKeyPressed(0xA).encode(), 0xEA9E);
    assert_eq!(Instruction::SkipKeyNotPressed(0xA).encode(), 0xEAA1);
    assert_eq!(Instruction::GetDelay(0xA).encode(), 0xFA07);
    assert_eq!(Instruction::WaitForKey(0xA).encode(), 0xFA0A);
    assert_eq!(Instruction::SetDelay(0xA).encode(), 0xFA15);
    assert_eq!(Instruction::SetSound(0xA).encode(), 0xFA18);
    assert_eq!(Instruction::AddMemPtr(0xA).encode(), 0xFA1E);
    assert_eq!(Instruction::SetChar(0xA).encode(), 0xFA29);
    assert_eq!(Instruction::BCD(0xA).encode(), 0xFA33);
    assert_eq!(Instruction::RegDump(0xA).encode(), 0xFA55);
    assert_eq!(Instruction::RegLoad(0xA).encode(), 0xFA65);
}

#[test]
fn words_that_are_no_instruction_decode_to_nop() {
    for word in [
        0x0000u16, 0x0001, 0x00E1, 0x00EF, 0x0FFF, 0x5001, 0x5121, 0x5FE1, 0x5FF1, 0x5FFF,
        0x8008, 0x8ABD, 0x8ABF, 0x9001, 0x9121, 0x9AB7, 0x9FF1, 0x9FFF, 0xE000, 0xE19F, 0xEAA2,
        0xF000, 0xF108, 0xF166, 0xFFFF,
    ] {
        assert_eq!(Instruction::decode(word), Instruction::Nop, "{word:#06x}");
    }
}

#[test]
fn a_register_skip_has_a_zero_low_nibble() {
    assert_eq!(Instruction::decode(0x5120), Instruction::SkipEqReg(1, 2));
    assert_eq!(Instruction::decode(0x5000), Instruction::SkipEqReg(0, 0));
    assert_eq!(Instruction::decode(0x5FF0), Instruction::SkipEqReg(15, 15));
    assert_eq!(Instruction::decode(0x9AB0), Instruction::SkipNeReg(0xA, 0xB));
    assert_eq!(Instruction::decode(0x9FF0), Instruction::SkipNeReg(15, 15));
    for word in 0..=u16::MAX {
        match Instruction::decode(word) {
            Instruction::SkipEqReg(x, y) => {
                assert_eq!(word, 0x5000 | (x as u16) << 8 | (y as u16) << 4)
            }
            Instruction::SkipNeReg(x, y) => {
                assert_eq!(word, 0x9000 | (x as u16) << 8 | (y as u16) << 4)
            }
            _ => {}
        }
    }
}

#[test]
fn a_shift_ignores_its_second_register() {
    assert_eq!(Instruction::decode(0x8AB6), Instruction::Rsh(0xA));
    assert_eq!(Instruction::decode(0x8ABE), Instruction::Lsh(0xA));
}

#[test]
fn operands_that_are_too_wide_spill_into_the_class() {
    assert_eq!(Instruction::Jump(0x1234).encode(), 0x1234);
    assert_eq!(Instruction::SetImm(0x1F, 0x22).encode(), 0x7F22);
}
