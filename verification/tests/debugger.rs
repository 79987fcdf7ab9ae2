use chip8::debugger::{print_memory, print_registers, InstructionWindow};
use chip8::emulator::Chip8;

#[test]
fn the_memory_view_shows_64_bytes_from_the_address_register() {
    let mut chip8 = Chip8::init(None);
    let text = print_memory(&chip8);
    let expected = "f0 90 90 90 f0 20 60 20\n\
                    20 70 f0 10 f0 80 f0 f0\n\
                    10 f0 10 f0 90 90 f0 10\n\
                    10 f0 80 f0 10 f0 f0 80\n\
                    f0 90 f0 f0 10 20 40 40\n\
                    f0 90 f0 90 f0 f0 90 f0\n\
                    10 f0 f0 90 f0 90 90 e0\n\
                    90 e0 90 e0 f0 80 80 80";
    assert_eq!(text, expected);
    chip8.registers.i = 4096 - 64;
    chip8.memory.ram[4095] = 0xA;
    chip8.memory.ram[4032] = 0x1;
    let text = print_memory(&chip8);
    assert!(text.starts_with(" 1  0  0"));
    assert!(text.ends_with(" 0  0  a"));
    assert_eq!(text.lines().count(), 8);
}

#[test]
fn the_register_view_is_a_table_of_four_columns() {
    let mut chip8 = Chip8::init(None);
    chip8.registers.vn[0] = 0xAB;
    chip8.registers.vn[10] = 1;
    chip8.registers.vn[15] = 255;
    chip8.registers.delay = 200;
    chip8.registers.sound = 7;
    chip8.registers.i = 0xFFF;
    let expected = "V0: ab\tV1: 0\tV2: 0\tV3: 0\t\n\
                    V4: 0\tV5: 0\tV6: 0\tV7: 0\t\n\
                    V8: 0\tV9: 0\tVa: 1\tVb: 0\t\n\
                    Vc: 0\tVd: 0\tVe: 0\tVf: ff\t\n\
                    delay: 200\tsound: 7\tpc: 200\tmemory: fff\t";
    assert_eq!(print_registers(&chip8), expected);
}

#[test]
fn the_instruction_view_marks_the_program_counter() {
    let mut chip8 = Chip8::init(None);
    chip8.load_rom(&[0x00, 0xE0, 0x61, 0x07, 0x12, 0x00]);
    chip8.do_instruction().unwrap();
    let mut window = InstructionWindow::default();
    assert_eq!((window.start_addr, window.len), (0x200, 8));
    assert_eq!(window.range(), 0x200..0x210);
    let lines = window.lines(&chip8);
    assert_eq!(lines.len(), 8);
    assert_eq!(lines[0], (0x200, "0x200\t\tCLS".to_string()));
    assert_eq!(lines[1], (0x202, "\t>>0x202\t\tLD V1 7".to_string()));
    assert_eq!(lines[2], (0x204, "0x204\t\tJP 512".to_string()));
    assert_eq!(lines[7], (0x20E, "0x20e\t\tNOP".to_string()));
    window.len = 0;
    assert!(window.lines(&chip8).is_empty());
    window.start_addr = 4094;
    window.len = 1;
    assert_eq!(window.lines(&chip8), vec![(4094, "0xffe\t\tNOP".to_string())]);
}

#[test]
fn the_window_follows_the_program_counter() {
    let mut window = InstructionWindow::default();
    window.focus(0x300);
    assert_eq!(window.start_addr, 0x300 - 6);
    window.focus(0x206);
    assert_eq!(window.start_addr, 0x200);
    window.focus(0x205);
    assert_eq!(window.start_addr, 0x200);
    window.focus(6);
    assert_eq!(window.start_addr, 0x200);
    window.focus(0x207);
    assert_eq!(window.start_addr, 0x201);
    assert_eq!(window.len, 8);
}

#[test]
fn scrolling_wraps_around() {
    let mut window = InstructionWindow::default();
    window.scroll(2);
    assert_eq!(window.start_addr, 0x202);
    window.scroll(-4);
    assert_eq!(window.start_addr, 0x1FE);
    window.scroll(0);
    assert_eq!(window.start_addr, 0x1FE);
    window.scroll(-0x1FF);
    assert_eq!(window.start_addr, usize::MAX);
    window.scroll(1);
    assert_eq!(window.start_addr, 0);
    window.scroll(isize::MIN);
    assert_eq!(window.start_addr, 0usize.wrapping_add_signed(isize::MIN));
    window.scroll(isize::MIN);
    assert_eq!(window.start_addr, 0);
    window.scroll(isize::MAX);
    window.scroll(isize::MAX);
    window.scroll(3);
    assert_eq!(window.start_addr, 1);
    for (start, direction) in [(5usize, -7isize), (usize::MAX, 1), (usize::MAX - 3, isize::MAX), (7, isize::MIN)] {
        window.start_addr = start;
        window.scroll(direction);
        assert_eq!(window.start_addr, start.wrapping_add_signed(direction));
    }
}
