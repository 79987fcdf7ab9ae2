use chip8::debugger::Breakpoints;
use chip8::driver::{Driver, EmulatorMode, FrameReport, KeyInput};
use chip8::machine::Fault;

#[test]
fn a_running_frame_executes_the_cycles_of_a_frame() {
    let mut driver = Driver::new(Some(600), false);
    assert_eq!(driver.mode, EmulatorMode::Running);
    // v1 += 1; jp 0x200
    driver.load_rom(&[0x71, 0x01, 0x12, 0x00]);
    driver.chip8.registers.delay = 5;
    driver.chip8.memory.keys[3] = true;
    let report = driver.step_running(&[KeyInput::Chip8Key(7)], &Breakpoints::new());
    assert_eq!(report, FrameReport { debug_toggles: 0, stepped: false, fault: None });
    assert_eq!(driver.chip8.registers.vn[1], 5);
    assert_eq!(driver.chip8.pc(), 0x200);
    assert_eq!(driver.chip8.registers.delay, 4);
    assert!(driver.chip8.memory.keys[7]);
    assert!(!driver.chip8.memory.keys[3]);
}

#[test]
fn the_default_speed_gives_eight_cycles() {
    let mut driver = Driver::new(None, false);
    driver.load_rom(&[0x71, 0x01, 0x12, 0x00]);
    driver.step(&[], &Breakpoints::new());
    assert_eq!(driver.chip8.registers.vn[1], 4);
    let mut slow = Driver::new(Some(59), false);
    slow.load_rom(&[0x71, 0x01, 0x12, 0x00]);
    slow.chip8.registers.sound = 1;
    slow.step(&[], &Breakpoints::new());
    assert_eq!(slow.chip8.registers.vn[1], 0);
    assert_eq!(slow.chip8.registers.sound, 0);
}

#[test]
fn a_pause_takes_effect_at_once_and_hides_later_inputs() {
    let mut driver = Driver::new(Some(600), false);
    driver.load_rom(&[0x71, 0x01, 0x12, 0x00]);
    let report = driver.step_running(
        &[
            KeyInput::ToggleDebug,
            KeyInput::Chip8Key(1),
            KeyInput::TogglePause,
            KeyInput::Chip8Key(2),
            KeyInput::ToggleDebug,
        ],
        &Breakpoints::new(),
    );
    assert_eq!(driver.mode, EmulatorMode::Paused);
    assert_eq!(report, FrameReport { debug_toggles: 10, stepped: false, fault: None });
    assert_eq!(driver.chip8.registers.vn[1], 0);
    assert!(driver.chip8.memory.keys[1]);
    assert!(!driver.chip8.memory.keys[2]);
}

#[test]
fn a_breakpoint_pauses_the_machine() {
    let mut driver = Driver::new(Some(600), false);
    driver.load_rom(&[0x71, 0x01, 0x71, 0x01, 0x71, 0x01, 0x12, 0x00]);
    let mut breakpoints = Breakpoints::new();
    breakpoints.toggle(0x204);
    assert!(breakpoints.is_set(0x204));
    assert!(!breakpoints.is_set(0x203));
    assert!(!breakpoints.is_set(0x205));
    assert!(!breakpoints.is_set(5000));
    let report = driver.step(&[KeyInput::ToggleDebug], &breakpoints);
    assert_eq!(driver.mode, EmulatorMode::Paused);
    assert_eq!(driver.chip8.pc(), 0x204);
    assert_eq!(driver.chip8.registers.vn[1], 2);
    assert_eq!(report.debug_toggles, 10);
    breakpoints.toggle(0x204);
    breakpoints.toggle(5000);
    breakpoints.toggle(4095);
    assert!(!breakpoints.is_set(0x204));
    assert!(breakpoints.is_set(4095));
    assert!(!breakpoints.is_set(4096));
}

#[test]
fn a_paused_frame_steps_once_per_step_input() {
    let mut driver = Driver::new(None, true);
    assert_eq!(driver.mode, EmulatorMode::Paused);
    driver.load_rom(&[0x71, 0x01, 0x12, 0x00]);
    driver.chip8.registers.delay = 9;
    let report = driver.step(&[], &Breakpoints::new());
    assert_eq!(report, FrameReport { debug_toggles: 0, stepped: false, fault: None });
    assert_eq!(driver.chip8.registers.delay, 9);
    assert_eq!(driver.chip8.pc(), 0x200);

    driver.chip8.memory.keys[1] = true;
    let report = driver.step_paused(&[
        KeyInput::Step,
        KeyInput::ToggleDebug,
        KeyInput::Chip8Key(4),
        KeyInput::Step,
        KeyInput::Step,
        KeyInput::ToggleDebug,
    ]);
    assert_eq!(report, FrameReport { debug_toggles: 1, stepped: true, fault: None });
    assert_eq!(driver.chip8.registers.vn[1], 2);
    assert_eq!(driver.chip8.pc(), 0x202);
    assert_eq!(driver.chip8.registers.delay, 6);
    assert!(driver.chip8.memory.keys[4]);
    assert!(!driver.chip8.memory.keys[1]);
    assert_eq!(driver.mode, EmulatorMode::Paused);

    driver.step_paused(&[KeyInput::TogglePause]);
    assert_eq!(driver.mode, EmulatorMode::Running);
}

#[test]
fn a_fault_ends_the_frame() {
    let mut driver = Driver::new(Some(600), false);
    driver.load_rom(&[0x71, 0x01, 0x00, 0xEE, 0x71, 0x01]);
    let report = driver.step_running(&[KeyInput::ToggleDebug], &Breakpoints::new());
    assert_eq!(
        report,
        FrameReport { debug_toggles: 2, stepped: false, fault: Some(Fault::StackUnderflow) }
    );
    assert_eq!(driver.chip8.registers.vn[1], 1);
    assert_eq!(driver.chip8.pc(), 0x202);

    let mut driver = Driver::new(None, true);
    driver.load_rom(&[0x00, 0xEE]);
    driver.chip8.registers.delay = 3;
    let report = driver.step_paused(&[KeyInput::ToggleDebug, KeyInput::Step, KeyInput::TogglePause]);
    assert_eq!(
        report,
        FrameReport { debug_toggles: 1, stepped: false, fault: Some(Fault::StackUnderflow) }
    );
    assert_eq!(driver.mode, EmulatorMode::Paused);
    assert_eq!(driver.chip8.registers.delay, 3);
}

#[test]
fn a_waiting_machine_runs_on_when_a_key_comes() {
    let mut driver = Driver::new(Some(120), false);
    // ld v2 k; v1 += 1; jp 0x202
    driver.load_rom(&[0xF2, 0x0A, 0x71, 0x01, 0x12, 0x02]);
    driver.step(&[], &Breakpoints::new());
    assert_eq!(driver.chip8.registers.key_flag, Some(2));
    assert_eq!(driver.chip8.registers.vn[1], 0);
    driver.step(&[KeyInput::Chip8Key(0xC)], &Breakpoints::new());
    assert_eq!(driver.chip8.registers.key_flag, None);
    assert_eq!(driver.chip8.registers.vn[2], 0xC);
    assert_eq!(driver.chip8.registers.vn[1], 1);
}
