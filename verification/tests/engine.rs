use chip8::display::Display;
use chip8::emulator::{
    execute_instruction, subtract_with_underflow, Chip8, Memory, Registers, CHAR_SPRITES,
    MEMORY_SIZE, PROGRAM_START,
};
use chip8::instructions::Instruction;
use chip8::machine::Fault;

fn fresh() -> (Memory, Registers) {
    (Memory::default(), Registers::default())
}

fn run(memory: &mut Memory, registers: &mut Registers, instruction: Instruction) {
    execute_instruction(memory, registers, instruction, 0).unwrap();
}

fn lit(display: &Display) -> Vec<(usize, usize)> {
    let mut pixels = vec![];
    for y in 0..32 {
        for x in 0..64 {
            if display.get(x, y) {
                pixels.push((x, y));
            }
        }
    }
    pixels
}

#[test]
fn a_new_machine_holds_the_glyphs_and_starts_at_0x200() {
    let chip8 = Chip8::init(None);
    assert_eq!(chip8.clock_speed, 500);
    assert_eq!(Chip8::DEFAULT_SPEED, 500);
    assert_eq!(Chip8::init(Some(1234)).clock_speed, 1234);
    assert_eq!(chip8.pc(), 0x200);
    assert_eq!(chip8.memory.ram.len(), MEMORY_SIZE);
    assert_eq!(&chip8.memory.ram[..80], &CHAR_SPRITES[..]);
    assert!(chip8.memory.ram[80..].iter().all(|b| *b == 0));
    assert_eq!(&chip8.memory.ram[5..10], &[0x20, 0x60, 0x20, 0x20, 0x70]);
    assert!(lit(&chip8.memory.display).is_empty());
    assert_eq!(chip8.memory.keys, [false; 16]);
    assert!(chip8.memory.stack.is_empty());
    assert_eq!(chip8.registers.vn, [0; 16]);
    assert_eq!(chip8.registers.i, 0);
    assert_eq!(chip8.registers.key_flag, None);
    assert!(!chip8.sound());
}

#[test]
fn the_clock_speed_can_be_set() {
    let mut chip8 = Chip8::init(None);
    chip8.clock_speed(60);
    assert_eq!(chip8.clock_speed, 60);
}

#[test]
fn a_rom_is_loaded_at_0x200() {
    let mut chip8 = Chip8::init(None);
    chip8.load_rom(&[1, 2, 3]);
    assert_eq!(&chip8.memory.ram[0x1FF..0x204], &[0, 1, 2, 3, 0]);
    let full = vec![0xEE; MEMORY_SIZE - PROGRAM_START];
    chip8.load_rom(&full);
    assert_eq!(chip8.memory.ram[MEMORY_SIZE - 1], 0xEE);
    assert_eq!(chip8.memory.ram[0x1FF], 0);
}

#[test]
fn subtraction_flags_no_borrow() {
    assert_eq!(subtract_with_underflow(5, 3), (2, true));
    assert_eq!(subtract_with_underflow(3, 3), (0, true));
    assert_eq!(subtract_with_underflow(0, 1), (255, false));
    assert_eq!(subtract_with_underflow(3, 5), (254, false));
    assert_eq!(subtract_with_underflow(0, 255), (1, false));
    for a in 0..=255u8 {
        for b in 0..=255u8 {
            assert_eq!(subtract_with_underflow(a, b), (a.wrapping_sub(b), a >= b));
        }
    }
}

#[test]
fn timers_count_down_to_zero_and_stay_there() {
    let mut chip8 = Chip8::init(None);
    chip8.registers.delay = 2;
    chip8.registers.sound = 1;
    assert!(chip8.sound());
    chip8.tick_timers();
    assert_eq!((chip8.registers.delay, chip8.registers.sound), (1, 0));
    assert!(!chip8.sound());
    chip8.tick_timers();
    assert_eq!((chip8.registers.delay, chip8.registers.sound), (0, 0));
    chip8.tick_timers();
    assert_eq!((chip8.registers.delay, chip8.registers.sound), (0, 0));
}

#[test]
fn a_key_wakes_a_waiting_machine() {
    let mut chip8 = Chip8::init(None);
    chip8.load_rom(&[0xF3, 0x0A, 0x63, 0x09, 0x64, 0x01]);
    chip8.do_instruction().unwrap();
    assert_eq!(chip8.registers.key_flag, Some(3));
    assert_eq!(chip8.pc(), 0x202);
    chip8.do_instruction().unwrap();
    chip8.do_instruction().unwrap();
    assert_eq!(chip8.pc(), 0x202);
    assert_eq!(chip8.registers.vn[3], 0);
    chip8.set_key(0xB);
    assert_eq!(chip8.registers.key_flag, None);
    assert_eq!(chip8.registers.vn[3], 0xB);
    assert!(chip8.memory.keys[0xB]);
    chip8.do_instruction().unwrap();
    assert_eq!(chip8.registers.vn[3], 9);
    assert_eq!(chip8.pc(), 0x204);
    chip8.set_key(2);
    assert_eq!(chip8.registers.vn[3], 9);
    assert!(chip8.memory.keys[2] && chip8.memory.keys[0xB]);
    chip8.clear_keys();
    assert_eq!(chip8.memory.keys, [false; 16]);
}

#[test]
fn jumps_and_calls_set_the_program_counter() {
    let (mut m, mut r) = fresh();
    run(&mut m, &mut r, Instruction::Jump(0x345));
    assert_eq!(r.pc, 0x345);
    r.vn[0] = 0xFF;
    run(&mut m, &mut r, Instruction::JumpOffset(0xFFF));
    assert_eq!(r.pc, 0xFFF + 0xFF);
    r.pc = 0x400;
    run(&mut m, &mut r, Instruction::Call(0x222));
    assert_eq!((r.pc, m.stack.clone()), (0x222, vec![0x400]));
    run(&mut m, &mut r, Instruction::Call(0x300));
    assert_eq!((r.pc, m.stack.clone()), (0x300, vec![0x400, 0x222]));
    run(&mut m, &mut r, Instruction::Ret);
    assert_eq!((r.pc, m.stack.clone()), (0x224, vec![0x400]));
    run(&mut m, &mut r, Instruction::Ret);
    assert_eq!((r.pc, m.stack.clone()), (0x402, vec![]));
    run(&mut m, &mut r, Instruction::Nop);
    assert_eq!(r.pc, 0x404);
}

#[test]
fn skips_advance_by_two_instructions() {
    let (mut m, mut r) = fresh();
    r.vn[1] = 7;
    r.vn[2] = 7;
    r.vn[3] = 8;
    m.keys[7] = true;
    let cases = [
        (Instruction::SkipEqImm(1, 7), true),
        (Instruction::SkipEqImm(1, 8), false),
        (Instruction::SkipNeImm(1, 7), false),
        (Instruction::SkipNeImm(1, 8), true),
        (Instruction::SkipEqReg(1, 2), true),
        (Instruction::SkipEqReg(1, 3), false),
        (Instruction::SkipNeReg(1, 2), false),
        (Instruction::SkipNeReg(1, 3), true),
        (Instruction::SkipKeyPressed(1), true),
        (Instruction::SkipKeyPressed(3), false),
        (Instruction::SkipKeyNotPressed(1), false),
        (Instruction::SkipKeyNotPressed(3), true),
    ];
    for (instruction, skips) in cases {
        r.pc = 0x200;
        run(&mut m, &mut r, instruction);
        assert_eq!(r.pc, if skips { 0x204 } else { 0x202 }, "{instruction:?}");
    }
}

#[test]
fn register_arithmetic_sets_the_flag() {
    let (mut m, mut r) = fresh();
    run(&mut m, &mut r, Instruction::SetImm(1, 200));
    run(&mut m, &mut r, Instruction::AddImm(1, 100));
    assert_eq!((r.vn[1], r.vn[15]), (44, 0));
    run(&mut m, &mut r, Instruction::SetImm(2, 250));
    run(&mut m, &mut r, Instruction::AddReg(1, 2));
    assert_eq!((r.vn[1], r.vn[15]), (38, 1));
    run(&mut m, &mut r, Instruction::AddReg(1, 1));
    assert_eq!((r.vn[1], r.vn[15]), (76, 0));
    run(&mut m, &mut r, Instruction::SubReg(1, 2));
    assert_eq!((r.vn[1], r.vn[15]), (82, 0));
    run(&mut m, &mut r, Instruction::SubReg(2, 1));
    assert_eq!((r.vn[2], r.vn[15]), (168, 1));
    run(&mut m, &mut r, Instruction::SubFrom(1, 2));
    assert_eq!((r.vn[1], r.vn[15]), (86, 1));
    run(&mut m, &mut r, Instruction::SubFrom(2, 1));
    assert_eq!((r.vn[2], r.vn[15]), (174, 0));
    run(&mut m, &mut r, Instruction::SetReg(3, 2));
    assert_eq!(r.vn[3], 174);
    r.vn[4] = 0b1100;
    r.vn[5] = 0b1010;
    run(&mut m, &mut r, Instruction::OrReg(4, 5));
    assert_eq!(r.vn[4], 0b1110);
    run(&mut m, &mut r, Instruction::AndReg(4, 5));
    assert_eq!(r.vn[4], 0b1010);
    r.vn[4] = 0b1100;
    run(&mut m, &mut r, Instruction::XorReg(4, 5));
    assert_eq!(r.vn[4], 0b0110);
    r.vn[6] = 0b1000_0011;
    run(&mut m, &mut r, Instruction::Rsh(6));
    assert_eq!((r.vn[6], r.vn[15]), (0b0100_0001, 1));
    run(&mut m, &mut r, Instruction::Rsh(6));
    assert_eq!((r.vn[6], r.vn[15]), (0b0010_0000, 1));
    run(&mut m, &mut r, Instruction::Rsh(6));
    assert_eq!((r.vn[6], r.vn[15]), (0b0001_0000, 0));
    r.vn[6] = 0b1100_0001;
    run(&mut m, &mut r, Instruction::Lsh(6));
    assert_eq!((r.vn[6], r.vn[15]), (0b1000_0010, 1));
    run(&mut m, &mut r, Instruction::Lsh(6));
    assert_eq!((r.vn[6], r.vn[15]), (0b0000_0100, 1));
    run(&mut m, &mut r, Instruction::Lsh(6));
    assert_eq!((r.vn[6], r.vn[15]), (0b0000_1000, 0));
}

#[test]
fn the_flag_register_as_an_operand() {
    let (mut m, mut r) = fresh();
    r.vn[15] = 200;
    r.vn[1] = 100;
    run(&mut m, &mut r, Instruction::AddReg(15, 1));
    assert_eq!(r.vn[15], 44);
    r.vn[15] = 5;
    run(&mut m, &mut r, Instruction::SubReg(15, 1));
    assert_eq!(r.vn[15], 0);
    r.vn[15] = 0b11;
    run(&mut m, &mut r, Instruction::Rsh(15));
    assert_eq!(r.vn[15], 0);
    r.vn[15] = 0xFF;
    run(&mut m, &mut r, Instruction::Lsh(15));
    assert_eq!(r.vn[15], 2);
}

#[test]
fn a_random_byte_is_masked() {
    let (mut m, mut r) = fresh();
    execute_instruction(&mut m, &mut r, Instruction::Rand(4, 0x0F), 0xA7).unwrap();
    assert_eq!(r.vn[4], 0x07);
    execute_instruction(&mut m, &mut r, Instruction::Rand(4, 0xF0), 0xA7).unwrap();
    assert_eq!(r.vn[4], 0xA0);
    execute_instruction(&mut m, &mut r, Instruction::SetImm(5, 1), 0xA7).unwrap();
    assert_eq!(r.vn[5], 1);

    let mut chip8 = Chip8::init(None);
    chip8.load_rom(&[0xC1, 0x0F, 0xC2, 0x00]);
    chip8.do_instruction().unwrap();
    chip8.do_instruction().unwrap();
    assert!(chip8.registers.vn[1] < 16);
    assert_eq!(chip8.registers.vn[2], 0);
}

#[test]
fn timers_and_the_address_register() {
    let (mut m, mut r) = fresh();
    r.vn[1] = 33;
    run(&mut m, &mut r, Instruction::SetDelay(1));
    run(&mut m, &mut r, Instruction::SetSound(1));
    assert_eq!((r.delay, r.sound), (33, 33));
    run(&mut m, &mut r, Instruction::GetDelay(2));
    assert_eq!(r.vn[2], 33);
    run(&mut m, &mut r, Instruction::SetMemPtr(0xFFF));
    assert_eq!(r.i, 0xFFF);
    run(&mut m, &mut r, Instruction::AddMemPtr(1));
    assert_eq!(r.i, 0xFFF + 33);
    r.i = 0xFFFF;
    run(&mut m, &mut r, Instruction::AddMemPtr(1));
    assert_eq!(r.i, 32);
    r.vn[3] = 0xA;
    run(&mut m, &mut r, Instruction::SetChar(3));
    assert_eq!(r.i, 50);
    run(&mut m, &mut r, Instruction::WaitForKey(9));
    assert_eq!(r.key_flag, Some(9));
}

#[test]
fn decimal_digits_and_register_transfer() {
    let (mut m, mut r) = fresh();
    r.i = 0x300;
    for (value, digits) in [(0u8, [0u8, 0, 0]), (7, [0, 0, 7]), (109, [1, 0, 9]), (255, [2, 5, 5])] {
        r.vn[4] = value;
        run(&mut m, &mut r, Instruction::BCD(4));
        assert_eq!(&m.ram[0x300..0x303], &digits);
    }
    for k in 0..16 {
        r.vn[k] = 100 + k as u8;
    }
    r.i = 0x400;
    run(&mut m, &mut r, Instruction::RegDump(2));
    assert_eq!(&m.ram[0x3FF..0x404], &[0, 100, 101, 102, 0]);
    run(&mut m, &mut r, Instruction::RegDump(15));
    assert_eq!(m.ram[0x40F], 115);
    assert_eq!(m.ram[0x410], 0);
    r.i = 0;
    run(&mut m, &mut r, Instruction::RegLoad(1));
    assert_eq!(&r.vn[..4], &[0xF0, 0x90, 102, 103]);
    r.i = 0xFFF;
    m.ram[0xFFF] = 77;
    run(&mut m, &mut r, Instruction::RegLoad(0));
    assert_eq!(r.vn[0], 77);
    run(&mut m, &mut r, Instruction::RegDump(0));
    r.i = 0xFFD;
    run(&mut m, &mut r, Instruction::BCD(0));
    assert_eq!(&m.ram[0xFFD..], &[0, 7, 7]);
}

#[test]
fn drawing_twice_erases_and_collides() {
    let (mut m, mut r) = fresh();
    r.vn[1] = 10;
    r.vn[2] = 20;
    r.i = 5;
    run(&mut m, &mut r, Instruction::Draw(1, 2, 5));
    assert_eq!(r.vn[15], 0);
    assert_eq!(
        lit(&m.display),
        vec![(12, 20), (11, 21), (12, 21), (12, 22), (12, 23), (11, 24), (12, 24), (13, 24)]
    );
    run(&mut m, &mut r, Instruction::Draw(1, 2, 5));
    assert_eq!(r.vn[15], 1);
    assert!(lit(&m.display).is_empty());
}

#[test]
fn drawing_a_blank_sprite_twice_never_collides() {
    let (mut m, mut r) = fresh();
    r.i = 0x300;
    run(&mut m, &mut r, Instruction::Draw(1, 2, 4));
    assert_eq!(r.vn[15], 0);
    r.vn[15] = 9;
    run(&mut m, &mut r, Instruction::Draw(1, 2, 4));
    assert_eq!(r.vn[15], 0);
    r.vn[15] = 9;
    run(&mut m, &mut r, Instruction::Draw(1, 2, 0));
    assert_eq!(r.vn[15], 0);
    assert!(lit(&m.display).is_empty());
}

#[test]
fn sprites_wrap_at_the_edges() {
    let (mut m, mut r) = fresh();
    m.ram[0x300] = 0b1000_0001;
    m.ram[0x301] = 0b0100_0000;
    r.i = 0x300;
    r.vn[1] = 60 + 64;
    r.vn[2] = 31 + 32;
    run(&mut m, &mut r, Instruction::Draw(1, 2, 2));
    assert_eq!(lit(&m.display), vec![(61, 0), (3, 31), (60, 31)]);
    assert_eq!(r.vn[15], 0);
    r.vn[1] = 3;
    r.vn[2] = 31;
    run(&mut m, &mut r, Instruction::Draw(1, 2, 1));
    assert_eq!(lit(&m.display), vec![(61, 0), (10, 31), (60, 31)]);
    assert_eq!(r.vn[15], 1);
    run(&mut m, &mut r, Instruction::ClearScreen);
    assert!(lit(&m.display).is_empty());
}

#[test]
fn the_display_keeps_what_is_set() {
    let mut display = Display::new();
    assert!(!display.get(63, 31));
    display.set(63, 31, true);
    display.set(0, 0, true);
    display.set(5, 6, true);
    display.set(5, 6, false);
    assert!(display.get(63, 31));
    assert!(display.get(0, 0));
    assert!(!display.get(5, 6));
    assert!(!display.get(31, 63 - 32));
    assert_eq!(lit(&display), vec![(0, 0), (63, 31)]);
    display.clear();
    assert!(lit(&display).is_empty());
}

#[test]
fn faults_are_reported_and_change_nothing() {
    let (mut m, mut r) = fresh();
    assert_eq!(
        execute_instruction(&mut m, &mut r, Instruction::Ret, 0),
        Err(Fault::StackUnderflow)
    );
    r.vn[1] = 16;
    assert_eq!(
        execute_instruction(&mut m, &mut r, Instruction::SetChar(1), 0),
        Err(Fault::GlyphOutOfRange)
    );
    assert_eq!(
        execute_instruction(&mut m, &mut r, Instruction::SkipKeyPressed(1), 0),
        Err(Fault::KeyOutOfRange)
    );
    assert_eq!(
        execute_instruction(&mut m, &mut r, Instruction::SkipKeyNotPressed(1), 0),
        Err(Fault::KeyOutOfRange)
    );
    r.i = 0xFFE;
    assert_eq!(
        execute_instruction(&mut m, &mut r, Instruction::BCD(1), 0),
        Err(Fault::MemoryOutOfRange)
    );
    assert_eq!(
        execute_instruction(&mut m, &mut r, Instruction::RegDump(2), 0),
        Err(Fault::MemoryOutOfRange)
    );
    assert_eq!(
        execute_instruction(&mut m, &mut r, Instruction::RegLoad(2), 0),
        Err(Fault::MemoryOutOfRange)
    );
    assert_eq!(
        execute_instruction(&mut m, &mut r, Instruction::Draw(1, 2, 3), 0),
        Err(Fault::MemoryOutOfRange)
    );
    execute_instruction(&mut m, &mut r, Instruction::Draw(1, 2, 2), 0).unwrap();
    assert_eq!(r.pc, 0x202);
    assert_eq!(r.i, 0xFFE);
    assert_eq!(r.vn[1], 16);
    assert!(m.stack.is_empty());
    assert_eq!(&m.ram[0xFFD..], &[0, 0, 0]);
}

#[test]
fn the_program_counter_must_point_into_memory() {
    let mut chip8 = Chip8::init(None);
    chip8.registers.pc = MEMORY_SIZE - 1;
    assert_eq!(chip8.do_instruction(), Err(Fault::PcOutOfRange));
    assert_eq!(chip8.pc(), MEMORY_SIZE - 1);
    chip8.registers.pc = MEMORY_SIZE - 2;
    assert_eq!(chip8.do_instruction(), Ok(()));
    assert_eq!(chip8.pc(), MEMORY_SIZE);
    assert_eq!(chip8.do_instruction(), Err(Fault::PcOutOfRange));
}

#[test]
fn returning_from_an_empty_stack_is_a_fault() {
    let mut chip8 = Chip8::init(None);
    chip8.load_rom(&[0x00, 0xEE]);
    assert_eq!(chip8.do_instruction(), Err(Fault::StackUnderflow));
    assert_eq!(chip8.pc(), 0x200);
}
