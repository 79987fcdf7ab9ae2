//! The decisions of the frame loop.
//!
//! A driver calls `step` once per frame of 1/60 second with the inputs of
//! that frame. What it has to show, play or read is its own business; what
//! the machine does in the frame is decided here.

use crate::debugger::Breakpoints;
use crate::emulator::{step_outcome, Chip8, MEMORY_SIZE, PROGRAM_START};
use crate::machine::{key_pressed, step, ticked, Fault, Machine};
use vstd::prelude::*;

verus! {

/// Whether the machine runs freely or waits for single steps.
#[derive(Debug, Clone, Copy, PartialEq, Eq, Structural)]
pub enum EmulatorMode {
    Running,
    Paused,
}

/// An input of the user that the frame loop reacts to.
#[derive(Debug, Clone, Copy, PartialEq, Eq, Structural)]
pub enum KeyInput {
    /// A key of the hexadecimal keypad, from 0 to 15.
    Chip8Key(u8),
    /// Execute one instruction while paused.
    Step,
    /// Pause a running machine, or let a paused one run.
    TogglePause,
    /// Show or hide the debugger.
    ToggleDebug,
}

/// A driver runs a program until its window is closed: it loads the ROM
/// into a new machine with the given instruction rate and pumps frames,
/// paused at first or running.
pub trait Chip8Driver {
    fn run(rom: &[u8], speed: Option<u64>, paused: bool);
}

/// The number of frames per second.
pub const FRAME_RATE: u64 = 60;

/// A machine and its mode.
pub struct Driver {
    pub chip8: Chip8,
    pub mode: EmulatorMode,
}

/// A driver as plain values.
#[verifier::ext_equal]
pub struct DriverView {
    pub machine: Machine,
    pub mode: EmulatorMode,
}

/// What a frame did besides changing the machine.
#[derive(Debug, Clone, Copy, PartialEq, Eq, Structural)]
pub struct FrameReport {
    /// How often the debugger was asked to show or hide itself.
    pub debug_toggles: u64,
    /// Whether an instruction was executed by a single step.
    pub stepped: bool,
    /// The fault that ended the frame early, if one did.
    pub fault: Option<Fault>,
}

impl View for Driver {
    type V = DriverView;

    open spec fn view(&self) -> DriverView {
        DriverView { machine: self.chip8@, mode: self.mode }
    }
}

/// Every key among the inputs is one of the sixteen.
pub open spec fn valid_inputs(inputs: Seq<KeyInput>) -> bool {
    forall|k: int|
        0 <= k < inputs.len() ==> ((#[trigger] inputs[k]) matches KeyInput::Chip8Key(key)
            ==> key < 16)
}

/// A machine on which no key is down.
pub open spec fn keys_cleared(m: Machine) -> Machine {
    Machine { keys: Seq::new(16, |k: int| false), ..m }
}

/// One step of a machine, which does nothing while the machine waits for a
/// key.
pub open spec fn step_unless_waiting(m: Machine, random: u8) -> Result<Machine, Fault> {
    if m.key_flag is Some {
        Ok(m)
    } else {
        step(m, random)
    }
}

/// The state after the inputs of one cycle of a running machine, and
/// whether the debugger was toggled. Keys go down; a pause takes effect at
/// once and ends the cycle's inputs.
pub open spec fn after_inputs(state: DriverView, inputs: Seq<KeyInput>) -> (DriverView, bool)
    decreases inputs.len(),
{
    if inputs.len() == 0 {
        (state, false)
    } else {
        match inputs[0] {
            KeyInput::Chip8Key(key) => after_inputs(
                DriverView { machine: key_pressed(state.machine, key), ..state },
                inputs.skip(1),
            ),
            KeyInput::Step => after_inputs(state, inputs.skip(1)),
            KeyInput::TogglePause => (DriverView { mode: EmulatorMode::Paused, ..state }, false),
            KeyInput::ToggleDebug => (after_inputs(state, inputs.skip(1)).0, true),
        }
    }
}

/// What a run of cycles or inputs has come to: the state, the fault that
/// stopped it, and what to tell the driver.
pub struct Progress {
    pub state: DriverView,
    pub fault: Option<Fault>,
    pub debug_toggles: nat,
    pub stepped: bool,
}

/// One cycle of a running machine: the inputs, then one instruction unless
/// the machine was paused, then a pause if the program counter has reached
/// a breakpoint.
pub open spec fn after_cycle(
    before: Progress,
    inputs: Seq<KeyInput>,
    breakpoints: Seq<bool>,
    random: u8,
) -> Progress {
    let (state, toggled) = after_inputs(before.state, inputs);
    let debug_toggles = if toggled {
        before.debug_toggles + 1
    } else {
        before.debug_toggles
    };
    let stepped = if state.mode is Running {
        step_unless_waiting(state.machine, random)
    } else {
        Ok(state.machine)
    };
    match stepped {
        Err(fault) => Progress { state, fault: Some(fault), debug_toggles, ..before },
        Ok(machine) => Progress {
            state: DriverView {
                machine,
                mode: if machine.pc < breakpoints.len() && breakpoints[machine.pc as int] {
                    EmulatorMode::Paused
                } else {
                    state.mode
                },
            },
            debug_toggles,
            ..before
        },
    }
}

/// A frame of a running machine after its first `cycles` cycles. The frame
/// starts with no key down and one tick of the timers. `randoms` holds the
/// random byte of each cycle. A fault ends the frame.
pub open spec fn running_frame(
    state: DriverView,
    inputs: Seq<KeyInput>,
    breakpoints: Seq<bool>,
    cycles: nat,
    randoms: Seq<u8>,
) -> Progress
    decreases cycles,
{
    if cycles == 0 {
        Progress {
            state: DriverView { machine: ticked(keys_cleared(state.machine)), ..state },
            fault: None,
            debug_toggles: 0,
            stepped: false,
        }
    } else {
        let before = running_frame(state, inputs, breakpoints, (cycles - 1) as nat, randoms);
        if before.fault is Some {
            before
        } else {
            after_cycle(before, inputs, breakpoints, randoms[cycles - 1])
        }
    }
}

/// What one input does to a paused machine: a step executes one
/// instruction and ticks the timers; a key replaces the keys that are down.
pub open spec fn after_paused_input(before: Progress, input: KeyInput, random: u8) -> Progress {
    let state = before.state;
    match input {
        KeyInput::Step => match step_unless_waiting(state.machine, random) {
            Err(fault) => Progress { fault: Some(fault), ..before },
            Ok(machine) => Progress {
                state: DriverView { machine: ticked(machine), ..state },
                stepped: true,
                ..before
            },
        },
        KeyInput::Chip8Key(key) => Progress {
            state: DriverView { machine: key_pressed(keys_cleared(state.machine), key), ..state },
            ..before
        },
        KeyInput::TogglePause => Progress {
            state: DriverView { mode: EmulatorMode::Running, ..state },
            ..before
        },
        KeyInput::ToggleDebug => Progress { debug_toggles: 1, ..before },
    }
}

/// A frame of a paused machine after its first `count` inputs. `randoms`
/// holds a random byte for each input. A fault ends the frame.
pub open spec fn paused_frame(
    state: DriverView,
    inputs: Seq<KeyInput>,
    count: nat,
    randoms: Seq<u8>,
) -> Progress
    decreases count,
{
    if count == 0 {
        Progress { state, fault: None, debug_toggles: 0, stepped: false }
    } else {
        let before = paused_frame(state, inputs, (count - 1) as nat, randoms);
        if before.fault is Some {
            before
        } else {
            after_paused_input(before, inputs[count - 1], randoms[count - 1])
        }
    }
}

/// Whether a report and a driver are what a frame has come to.
pub open spec fn reports(report: FrameReport, driver: DriverView, progress: Progress) -> bool {
    &&& driver == progress.state
    &&& report.fault == progress.fault
    &&& report.debug_toggles == progress.debug_toggles
    &&& report.stepped == progress.stepped
}

/// A frame of a running machine with some random bytes.
pub open spec fn ran(
    before: DriverView,
    inputs: Seq<KeyInput>,
    breakpoints: Seq<bool>,
    cycles: nat,
    randoms: Seq<u8>,
    report: FrameReport,
    after: DriverView,
) -> bool {
    randoms.len() == cycles && reports(
        report,
        after,
        running_frame(before, inputs, breakpoints, cycles, randoms),
    )
}

/// A frame of a paused machine with some random bytes.
pub open spec fn paused(
    before: DriverView,
    inputs: Seq<KeyInput>,
    randoms: Seq<u8>,
    report: FrameReport,
    after: DriverView,
) -> bool {
    randoms.len() == inputs.len() && reports(
        report,
        after,
        paused_frame(before, inputs, inputs.len(), randoms),
    )
}

/// A frame does not depend on the random bytes of later cycles.
pub proof fn lemma_running_frame_prefix(
    state: DriverView,
    inputs: Seq<KeyInput>,
    breakpoints: Seq<bool>,
    cycles: nat,
    randoms: Seq<u8>,
    more: Seq<u8>,
)
    requires
        cycles <= randoms.len(),
    ensures
        running_frame(state, inputs, breakpoints, cycles, randoms + more) == running_frame(
            state,
            inputs,
            breakpoints,
            cycles,
            randoms,
        ),
    decreases cycles,
{
    if cycles > 0 {
        lemma_running_frame_prefix(state, inputs, breakpoints, (cycles - 1) as nat, randoms, more);
    }
}

/// A frame does not depend on the random bytes of later inputs.
pub proof fn lemma_paused_frame_prefix(
    state: DriverView,
    inputs: Seq<KeyInput>,
    count: nat,
    randoms: Seq<u8>,
    more: Seq<u8>,
)
    requires
        count <= randoms.len(),
    ensures
        paused_frame(state, inputs, count, randoms + more) == paused_frame(
            state,
            inputs,
            count,
            randoms,
        ),
    decreases count,
{
    if count > 0 {
        lemma_paused_frame_prefix(state, inputs, (count - 1) as nat, randoms, more);
    }
}

/// After a fault the rest of the frame changes nothing.
pub proof fn lemma_running_frame_stops(
    state: DriverView,
    inputs: Seq<KeyInput>,
    breakpoints: Seq<bool>,
    done: nat,
    cycles: nat,
    randoms: Seq<u8>,
)
    requires
        done <= cycles,
        running_frame(state, inputs, breakpoints, done, randoms).fault is Some,
    ensures
        running_frame(state, inputs, breakpoints, cycles, randoms) == running_frame(
            state,
            inputs,
            breakpoints,
            done,
            randoms,
        ),
    decreases cycles,
{
    if done < cycles {
        lemma_running_frame_stops(state, inputs, breakpoints, done, (cycles - 1) as nat, randoms);
    }
}

/// After a fault the rest of the inputs changes nothing.
pub proof fn lemma_paused_frame_stops(
    state: DriverView,
    inputs: Seq<KeyInput>,
    done: nat,
    count: nat,
    randoms: Seq<u8>,
)
    requires
        done <= count,
        paused_frame(state, inputs, done, randoms).fault is Some,
    ensures
        paused_frame(state, inputs, count, randoms) == paused_frame(state, inputs, done, randoms),
    decreases count,
{
    if done < count {
        lemma_paused_frame_stops(state, inputs, done, (count - 1) as nat, randoms);
    }
}

impl Driver {
    /// A driver of a new machine with the given instruction rate, paused or
    /// running.
    pub fn new(speed: Option<u64>, paused: bool) -> (driver: Driver)
        ensures
            driver.chip8.wf(),
            driver@.machine == crate::machine::initial_machine(),
            driver.mode == (if paused {
                EmulatorMode::Paused
            } else {
                EmulatorMode::Running
            }),
            driver.chip8.clock_speed == (match speed {
                Some(s) => s,
                None => Chip8::DEFAULT_SPEED,
            }),
    {
        Driver {
            chip8: Chip8::init(speed),
            mode: if paused {
                EmulatorMode::Paused
            } else {
                EmulatorMode::Running
            },
        }
    }

    /// Copies a program into memory from `PROGRAM_START` on. The program
    /// must fit between that address and the end of memory.
    pub fn load_rom(&mut self, rom: &[u8])
        requires
            rom@.len() <= MEMORY_SIZE - PROGRAM_START,
        ensures
            final(self)@.machine == (Machine {
                ram: Seq::new(
                    MEMORY_SIZE as nat,
                    |a: int|
                        if PROGRAM_START <= a < PROGRAM_START + rom@.len() {
                            rom@[a - PROGRAM_START]
                        } else {
                            old(self)@.machine.ram[a]
                        },
                ),
                ..old(self)@.machine
            }),
            final(self).mode == old(self).mode,
            final(self).chip8.clock_speed == old(self).chip8.clock_speed,
            old(self).chip8.wf() ==> final(self).chip8.wf(),
    {
        self.chip8.load_rom(rom)
    }

    /// Applies the inputs of one cycle of a running machine. Returns
    /// whether the debugger was toggled.
    fn apply_inputs(&mut self, inputs: &[KeyInput]) -> (toggled: bool)
        requires
            old(self).chip8.wf(),
            valid_inputs(inputs@),
        ensures
            final(self).chip8.wf(),
            final(self).chip8.clock_speed == old(self).chip8.clock_speed,
            (final(self)@, toggled) == after_inputs(old(self)@, inputs@),
    {
        let mut debug_pressed = false;
        let mut stop = false;
        let mut k: usize = 0;
        assert(inputs@.skip(0) =~= inputs@);
        while k < inputs.len() && !stop
            invariant
                k <= inputs@.len(),
                valid_inputs(inputs@),
                self.chip8.wf(),
                self.chip8.clock_speed == old(self).chip8.clock_speed,
                after_inputs(old(self)@, inputs@) == (if stop {
                    (self@, debug_pressed)
                } else {
                    (
                        after_inputs(self@, inputs@.skip(k as int)).0,
                        debug_pressed || after_inputs(self@, inputs@.skip(k as int)).1,
                    )
                }),
            decreases inputs@.len() - k + if stop { 0int } else { 1int },
        {
            proof {
                assert(inputs@.skip(k as int).skip(1) =~= inputs@.skip(k + 1));
                assert(inputs@.skip(k as int)[0] == inputs@[k as int]);
            }
            match inputs[k] {
                KeyInput::Chip8Key(key) => {
                    self.chip8.set_key(key);
                },
                KeyInput::Step => {},
                KeyInput::TogglePause => {
                    self.mode = EmulatorMode::Paused;
                    stop = true;
                },
                KeyInput::ToggleDebug => {
                    debug_pressed = true;
                },
            }
            k += 1;
        }
        debug_pressed
    }

    /// One frame of a running machine: no key is down at first, the timers
    /// tick once, and then come as many cycles as the instruction rate
    /// gives a frame. Each cycle applies the inputs, executes one
    /// instruction unless the machine was paused, and pauses the machine at
    /// a breakpoint. A fault ends the frame and is reported.
    pub fn step_running(&mut self, inputs: &[KeyInput], breakpoints: &Breakpoints) -> (report:
        FrameReport)
        requires
            old(self).chip8.wf(),
            valid_inputs(inputs@),
        ensures
            final(self).chip8.wf(),
            final(self).chip8.clock_speed == old(self).chip8.clock_speed,
            exists|randoms: Seq<u8>| #[trigger]
                ran(
                    old(self)@,
                    inputs@,
                    breakpoints@,
                    (old(self).chip8.clock_speed / FRAME_RATE) as nat,
                    randoms,
                    report,
                    final(self)@,
                ),
    {
        self.chip8.clear_keys();
        self.chip8.tick_timers();
        let cycles_per_frame = self.chip8.clock_speed / FRAME_RATE;
        let ghost mut randoms = Seq::<u8>::empty();
        let mut debug_toggles: u64 = 0;
        let mut cycle: u64 = 0;
        assert(self@ =~= (DriverView {
            machine: ticked(keys_cleared(old(self)@.machine)),
            ..old(self)@
        }));
        while cycle < cycles_per_frame
            invariant
                cycle <= cycles_per_frame == old(self).chip8.clock_speed / FRAME_RATE,
                valid_inputs(inputs@),
                self.chip8.wf(),
                self.chip8.clock_speed == old(self).chip8.clock_speed,
                randoms.len() == cycle,
                debug_toggles <= cycle,
                reports(
                    FrameReport { debug_toggles, stepped: false, fault: None },
                    self@,
                    running_frame(old(self)@, inputs@, breakpoints@, cycle as nat, randoms),
                ),
            decreases cycles_per_frame - cycle,
        {
            let ghost before = running_frame(
                old(self)@,
                inputs@,
                breakpoints@,
                cycle as nat,
                randoms,
            );
            let debug_pressed = self.apply_inputs(inputs);
            if debug_pressed {
                debug_toggles += 1;
            }
            let ghost state = self@;
            let ghost mut random = 0u8;
            if matches!(self.mode, EmulatorMode::Running) {
                let result = self.chip8.do_instruction();
                proof {
                    if state.machine.key_flag is None {
                        random = choose|random: u8|
                            step_outcome(
                                state.machine,
                                #[trigger] step(state.machine, random),
                                result,
                                self.chip8@,
                            );
                    }
                }
                if let Err(fault) = result {
                    proof {
                        let rest = Seq::new((cycles_per_frame - cycle - 1) as nat, |k: int| 0u8);
                        let all = randoms.push(random) + rest;
                        lemma_running_frame_prefix(
                            old(self)@,
                            inputs@,
                            breakpoints@,
                            cycle as nat,
                            randoms,
                            seq![random] + rest,
                        );
                        assert(randoms + (seq![random] + rest) =~= all);
                        assert(all[cycle as int] == random);
                        lemma_running_frame_stops(
                            old(self)@,
                            inputs@,
                            breakpoints@,
                            (cycle + 1) as nat,
                            cycles_per_frame as nat,
                            all,
                        );
                        assert(ran(
                            old(self)@,
                            inputs@,
                            breakpoints@,
                            cycles_per_frame as nat,
                            all,
                            FrameReport { debug_toggles, stepped: false, fault: Some(fault) },
                            self@,
                        ));
                    }
                    return FrameReport { debug_toggles, stepped: false, fault: Some(fault) };
                }
            }
            if breakpoints.is_set(self.chip8.pc()) {
                self.mode = EmulatorMode::Paused;
            }
            proof {
                lemma_running_frame_prefix(
                    old(self)@,
                    inputs@,
                    breakpoints@,
                    cycle as nat,
                    randoms,
                    seq![random],
                );
                assert(randoms + seq![random] =~= randoms.push(random));
                randoms = randoms.push(random);
                assert(self@ =~= after_cycle(before, inputs@, breakpoints@, random).state);
            }
            cycle += 1;
        }
        proof {
            assert(ran(
                old(self)@,
                inputs@,
                breakpoints@,
                cycles_per_frame as nat,
                randoms,
                FrameReport { debug_toggles, stepped: false, fault: None },
                self@,
            ));
        }
        FrameReport { debug_toggles, stepped: false, fault: None }
    }

    /// One frame of a paused machine: each input in turn. A step executes
    /// one instruction and ticks the timers; a key replaces the keys that
    /// are down; a pause toggle lets the machine run from the next frame
    /// on. A fault ends the frame and is reported.
    pub fn step_paused(&mut self, inputs: &[KeyInput]) -> (report: FrameReport)
        requires
            old(self).chip8.wf(),
            valid_inputs(inputs@),
        ensures
            final(self).chip8.wf(),
            final(self).chip8.clock_speed == old(self).chip8.clock_speed,
            exists|randoms: Seq<u8>| #[trigger]
                paused(old(self)@, inputs@, randoms, report, final(self)@),
    {
        let ghost mut randoms = Seq::<u8>::empty();
        let mut toggle_debug = false;
        let mut stepped = false;
        let mut k: usize = 0;
        assert(self@ =~= old(self)@);
        while k < inputs.len()
            invariant
                k <= inputs@.len(),
                valid_inputs(inputs@),
                self.chip8.wf(),
                self.chip8.clock_speed == old(self).chip8.clock_speed,
                randoms.len() == k,
                reports(
                    FrameReport {
                        debug_toggles: if toggle_debug {
                            1
                        } else {
                            0
                        },
                        stepped,
                        fault: None,
                    },
                    self@,
                    paused_frame(old(self)@, inputs@, k as nat, randoms),
                ),
            decreases inputs@.len() - k,
        {
            let ghost before = paused_frame(old(self)@, inputs@, k as nat, randoms);
            let ghost state = self@;
            let ghost mut random = 0u8;
            match inputs[k] {
                KeyInput::Step => {
                    let result = self.chip8.do_instruction();
                    proof {
                        if state.machine.key_flag is None {
                            random = choose|random: u8|
                                step_outcome(
                                    state.machine,
                                    #[trigger] step(state.machine, random),
                                    result,
                                    self.chip8@,
                                );
                        }
                    }
                    if let Err(fault) = result {
                        let report = FrameReport {
                            debug_toggles: if toggle_debug {
                                1
                            } else {
                                0
                            },
                            stepped,
                            fault: Some(fault),
                        };
                        proof {
                            let rest = Seq::new((inputs@.len() - k - 1) as nat, |j: int| 0u8);
                            let all = randoms.push(random) + rest;
                            lemma_paused_frame_prefix(
                                old(self)@,
                                inputs@,
                                k as nat,
                                randoms,
                                seq![random] + rest,
                            );
                            assert(randoms + (seq![random] + rest) =~= all);
                            assert(all[k as int] == random);
                            lemma_paused_frame_stops(
                                old(self)@,
                                inputs@,
                                (k + 1) as nat,
                                inputs@.len(),
                                all,
                            );
                            assert(paused(old(self)@, inputs@, all, report, self@));
                        }
                        return report;
                    }
                    self.chip8.tick_timers();
                    stepped = true;
                },
                KeyInput::Chip8Key(val) => {
                    self.chip8.clear_keys();
                    self.chip8.set_key(val);
                },
                KeyInput::TogglePause => {
                    self.mode = EmulatorMode::Running;
                },
                KeyInput::ToggleDebug => {
                    toggle_debug = true;
                },
            }
            proof {
                lemma_paused_frame_prefix(old(self)@, inputs@, k as nat, randoms, seq![random]);
                assert(randoms + seq![random] =~= randoms.push(random));
                randoms = randoms.push(random);
                assert(self@ =~= after_paused_input(before, inputs@[k as int], random).state);
            }
            k += 1;
        }
        let report = FrameReport {
            debug_toggles: if toggle_debug {
                1
            } else {
                0
            },
            stepped,
            fault: None,
        };
        proof {
            assert(paused(old(self)@, inputs@, randoms, report, self@));
        }
        report
    }

    /// One frame, as the mode of the machine asks.
    pub fn step(&mut self, inputs: &[KeyInput], breakpoints: &Breakpoints) -> (report: FrameReport)
        requires
            old(self).chip8.wf(),
            valid_inputs(inputs@),
        ensures
            final(self).chip8.wf(),
            final(self).chip8.clock_speed == old(self).chip8.clock_speed,
            old(self).mode is Paused ==> exists|randoms: Seq<u8>| #[trigger]
                paused(old(self)@, inputs@, randoms, report, final(self)@),
            old(self).mode is Running ==> exists|randoms: Seq<u8>| #[trigger]
                ran(
                    old(self)@,
                    inputs@,
                    breakpoints@,
                    (old(self).chip8.clock_speed / FRAME_RATE) as nat,
                    randoms,
                    report,
                    final(self)@,
                ),
    {
        match self.mode {
            EmulatorMode::Paused => self.step_paused(inputs),
            EmulatorMode::Running => self.step_running(inputs, breakpoints),
        }
    }
}

} // verus!
