//! The PS/2 controller's commands: activating the keyboard and the mouse,
//! the A20 gate, the keyboard LEDs, and taking a byte it holds. Each command
//! is a step function: it gives the port access to make and takes back what
//! came of it, and bytes read that are not the acknowledgement go to the
//! keyboard or mouse driver.
use vstd::prelude::*;

verus! {

/// The controller's command and state port.
pub const PS2_CONTROL_PORT: u16 = 0x64;
/// The controller's data port.
pub const PS2_DATA_PORT: u16 = 0x60;
/// The byte a device acknowledges a command with.
pub const PS2_ACK: u8 = 0xFA;
/// Bytes read while waiting for an acknowledgement before giving up.
pub const PS2_ACK_ROUNDS: u8 = 100;

/// A command to the controller.
#[derive(Clone, Copy, PartialEq, Eq, Structural)]
pub enum Ps2Command {
    ActivateKeyboard,
    ActivateMouse,
    EnableA20Gate,
    /// Sets the keyboard LEDs to the byte given.
    ChangeLed(u8),
    GetData,
}

/// The LED byte: caps lock in bit 2, num lock in bit 1, scroll lock in bit 0.
pub open spec fn spec_led_byte(capslock: bool, numlock: bool, scrolllock: bool) -> u8 {
    ((if capslock { 4int } else { 0int }) + (if numlock { 2int } else { 0int }) + (if scrolllock { 1int } else { 0int })) as u8
}

pub fn led_byte(capslock: bool, numlock: bool, scrolllock: bool) -> (r: u8)
    ensures
        r == spec_led_byte(capslock, numlock, scrolllock),
{
    (if capslock { 4u8 } else { 0u8 }) + (if numlock { 2u8 } else { 0u8 }) + (if scrolllock { 1u8 } else { 0u8 })
}

/// One instruction of a command.
#[derive(Clone, Copy, PartialEq, Eq, Structural)]
pub enum Ps2Instr {
    /// Write a byte to a port.
    Write(u16, u8),
    /// Wait for the controller's input buffer to empty.
    WaitInputEmpty,
    /// Wait for the controller's output buffer to fill.
    WaitOutputFull,
    /// Read the data port and keep the byte.
    ReadSaved,
    /// Write the kept byte with bit 0 set to a port.
    WriteSavedOr1(u16),
    /// Read bytes until the acknowledgement comes, handing the others to the
    /// drivers, for at most `PS2_ACK_ROUNDS` bytes; with `true`, the command
    /// fails when it does not come.
    WaitAck(bool),
    /// When the output buffer is full, read its byte and hand it to the
    /// driver it is for.
    TakeData,
}

/// The instructions of each command, in order.
pub open spec fn spec_program(command: Ps2Command) -> Seq<Ps2Instr> {
    match command {
        Ps2Command::ActivateKeyboard => seq![
            Ps2Instr::Write(PS2_CONTROL_PORT, 0xAE),
            Ps2Instr::WaitInputEmpty,
            Ps2Instr::Write(PS2_DATA_PORT, 0xF4),
            Ps2Instr::WaitAck(true),
        ],
        Ps2Command::ActivateMouse => seq![
            Ps2Instr::Write(PS2_CONTROL_PORT, 0xA8),
            Ps2Instr::Write(PS2_CONTROL_PORT, 0xD4),
            Ps2Instr::WaitInputEmpty,
            Ps2Instr::Write(PS2_DATA_PORT, 0xF4),
            Ps2Instr::WaitAck(true),
        ],
        Ps2Command::EnableA20Gate => seq![
            Ps2Instr::Write(PS2_CONTROL_PORT, 0xD0),
            Ps2Instr::WaitOutputFull,
            Ps2Instr::ReadSaved,
            Ps2Instr::WaitInputEmpty,
            Ps2Instr::Write(PS2_CONTROL_PORT, 0xD1),
            Ps2Instr::WriteSavedOr1(PS2_DATA_PORT),
        ],
        Ps2Command::ChangeLed(leds) => seq![
            Ps2Instr::WaitInputEmpty,
            Ps2Instr::Write(PS2_DATA_PORT, 0xED),
            Ps2Instr::WaitInputEmpty,
            Ps2Instr::WaitAck(false),
            Ps2Instr::Write(PS2_DATA_PORT, leds),
            Ps2Instr::WaitInputEmpty,
            Ps2Instr::WaitAck(false),
        ],
        Ps2Command::GetData => seq![Ps2Instr::TakeData],
    }
}

/// Instruction `pc` of a command's program, and the program's length.
fn instruction(command: Ps2Command, pc: u8) -> (r: (Option<Ps2Instr>, u8))
    ensures
        r.1 == spec_program(command).len(),
        r.0 == (if pc < spec_program(command).len() { Some(spec_program(command)[pc as int]) } else { None::<Ps2Instr> }),
{
    let program: Vec<Ps2Instr> = match command {
        Ps2Command::ActivateKeyboard => vec![
            Ps2Instr::Write(PS2_CONTROL_PORT, 0xAE),
            Ps2Instr::WaitInputEmpty,
            Ps2Instr::Write(PS2_DATA_PORT, 0xF4),
            Ps2Instr::WaitAck(true),
        ],
        Ps2Command::ActivateMouse => vec![
            Ps2Instr::Write(PS2_CONTROL_PORT, 0xA8),
            Ps2Instr::Write(PS2_CONTROL_PORT, 0xD4),
            Ps2Instr::WaitInputEmpty,
            Ps2Instr::Write(PS2_DATA_PORT, 0xF4),
            Ps2Instr::WaitAck(true),
        ],
        Ps2Command::EnableA20Gate => vec![
            Ps2Instr::Write(PS2_CONTROL_PORT, 0xD0),
            Ps2Instr::WaitOutputFull,
            Ps2Instr::ReadSaved,
            Ps2Instr::WaitInputEmpty,
            Ps2Instr::Write(PS2_CONTROL_PORT, 0xD1),
            Ps2Instr::WriteSavedOr1(PS2_DATA_PORT),
        ],
        Ps2Command::ChangeLed(leds) => vec![
            Ps2Instr::WaitInputEmpty,
            Ps2Instr::Write(PS2_DATA_PORT, 0xED),
            Ps2Instr::WaitInputEmpty,
            Ps2Instr::WaitAck(false),
            Ps2Instr::Write(PS2_DATA_PORT, leds),
            Ps2Instr::WaitInputEmpty,
            Ps2Instr::WaitAck(false),
        ],
        Ps2Command::GetData => vec![Ps2Instr::TakeData],
    };
    proof {
        assert(program@ =~= spec_program(command));
    }
    let len = program.len() as u8;
    if (pc as usize) < program.len() {
        (Some(program[pc as usize]), len)
    } else {
        (None, len)
    }
}

/// What the controller is asked to do next.
#[derive(Clone, Copy, PartialEq, Eq, Structural)]
pub enum Ps2Action {
    /// Write a byte to a port.
    Write(u16, u8),
    /// Poll the state port until the input buffer is empty (bit 1 clear),
    /// at most 0xFFFF times.
    WaitInputEmpty,
    /// Poll the state port until the output buffer is full (bit 0 set), at
    /// most 0xFFFF times.
    WaitOutputFull,
    /// Read the state port.
    ReadState,
    /// Read the data port.
    ReadData,
    /// Hand a byte to the keyboard driver.
    ToKeyboard(u8),
    /// Hand a byte to the mouse driver.
    ToMouse(u8),
    /// The command is over: `false` when an acknowledgement it waited for
    /// did not come.
    Done(bool),
}

/// What came of the last action: it was done, or it read a byte.
#[derive(Clone, Copy, PartialEq, Eq, Structural)]
pub enum Ps2Event {
    Completed,
    Byte(u8),
}

/// A command under way: the instruction it is at, the step within it, the
/// bytes read waiting for an acknowledgement, the byte kept, the byte read
/// last and whether the state said it came from the mouse, and whether the
/// command has gone well so far.
#[derive(Clone, Copy, PartialEq, Eq, Structural)]
pub struct Ps2Machine {
    pub command: Ps2Command,
    pub pc: u8,
    pub sub: u8,
    pub round: u8,
    pub saved: u8,
    pub data: u8,
    pub is_mouse: bool,
    pub ok: bool,
}

/// The driver a byte goes to.
pub open spec fn deliver(is_mouse: bool, data: u8) -> Ps2Action {
    if is_mouse { Ps2Action::ToMouse(data) } else { Ps2Action::ToKeyboard(data) }
}

/// The action a machine asks for.
pub open spec fn ps2_action(m: Ps2Machine) -> Ps2Action {
    let program = spec_program(m.command);
    if m.pc >= program.len() {
        Ps2Action::Done(m.ok)
    } else {
        match program[m.pc as int] {
            Ps2Instr::Write(port, value) => Ps2Action::Write(port, value),
            Ps2Instr::WaitInputEmpty => Ps2Action::WaitInputEmpty,
            Ps2Instr::WaitOutputFull => Ps2Action::WaitOutputFull,
            Ps2Instr::ReadSaved => Ps2Action::ReadData,
            Ps2Instr::WriteSavedOr1(port) => Ps2Action::Write(port, m.saved | 1),
            Ps2Instr::WaitAck(_) => if m.sub == 0 {
                Ps2Action::WaitOutputFull
            } else if m.sub == 1 {
                Ps2Action::ReadState
            } else if m.sub == 2 {
                Ps2Action::ReadData
            } else {
                deliver(m.is_mouse, m.data)
            },
            Ps2Instr::TakeData => if m.sub <= 1 {
                Ps2Action::ReadState
            } else if m.sub == 2 {
                Ps2Action::ReadData
            } else {
                deliver(m.is_mouse, m.data)
            },
        }
    }
}

/// The machine at the next instruction.
pub open spec fn next_instr(m: Ps2Machine) -> Ps2Machine {
    Ps2Machine { pc: (m.pc + 1) as u8, sub: 0, round: 0, ..m }
}

/// The machine with its command over.
pub open spec fn finished(m: Ps2Machine, ok: bool) -> Ps2Machine {
    Ps2Machine { pc: spec_program(m.command).len() as u8, sub: 0, round: 0, ok, ..m }
}

/// The machine once the event answers its action; an event that does not
/// answer it (no byte after a read) leaves it as it was.
pub open spec fn ps2_advance(m: Ps2Machine, ev: Ps2Event) -> Ps2Machine {
    let program = spec_program(m.command);
    if m.pc >= program.len() {
        m
    } else {
        match program[m.pc as int] {
            Ps2Instr::ReadSaved => match ev {
                Ps2Event::Byte(v) => next_instr(Ps2Machine { saved: v, ..m }),
                Ps2Event::Completed => m,
            },
            Ps2Instr::WaitAck(required) => if m.sub == 0 {
                Ps2Machine { sub: 1, ..m }
            } else if m.sub == 1 {
                match ev {
                    Ps2Event::Byte(s) => Ps2Machine { sub: 2, is_mouse: s & 0x20 != 0, ..m },
                    Ps2Event::Completed => m,
                }
            } else if m.sub == 2 {
                match ev {
                    Ps2Event::Byte(d) => if d == PS2_ACK { next_instr(m) } else { Ps2Machine { sub: 3, data: d, ..m } },
                    Ps2Event::Completed => m,
                }
            } else if m.round + 1 >= PS2_ACK_ROUNDS {
                if required { finished(m, false) } else { next_instr(m) }
            } else {
                Ps2Machine { sub: 0, round: (m.round + 1) as u8, ..m }
            },
            Ps2Instr::TakeData => if m.sub == 0 {
                match ev {
                    Ps2Event::Byte(s) => if s & 0x01 == 0 { finished(m, m.ok) } else { Ps2Machine { sub: 1, ..m } },
                    Ps2Event::Completed => m,
                }
            } else if m.sub == 1 {
                match ev {
                    Ps2Event::Byte(s) => Ps2Machine { sub: 2, is_mouse: s & 0x20 != 0, ..m },
                    Ps2Event::Completed => m,
                }
            } else if m.sub == 2 {
                match ev {
                    Ps2Event::Byte(d) => Ps2Machine { sub: 3, data: d, ..m },
                    Ps2Event::Completed => m,
                }
            } else {
                next_instr(m)
            },
            _ => next_instr(m),
        }
    }
}

impl Ps2Machine {
    pub open spec fn wf(&self) -> bool {
        &&& self.pc <= spec_program(self.command).len()
        &&& self.sub <= 3
        &&& self.round < PS2_ACK_ROUNDS
    }

    /// A command about to start, so far going well.
    pub fn new(command: Ps2Command) -> (r: Self)
        ensures
            r.wf(),
            r == (Ps2Machine { command, pc: 0, sub: 0, round: 0, saved: 0, data: 0, is_mouse: false, ok: true }),
    {
        Ps2Machine { command, pc: 0, sub: 0, round: 0, saved: 0, data: 0, is_mouse: false, ok: true }
    }

    /// The action the machine asks for.
    pub fn action(&self) -> (r: Ps2Action)
        requires
            self.wf(),
        ensures
            r == ps2_action(*self),
    {
        let (instr, _) = instruction(self.command, self.pc);
        match instr {
            None => Ps2Action::Done(self.ok),
            Some(Ps2Instr::Write(port, value)) => Ps2Action::Write(port, value),
            Some(Ps2Instr::WaitInputEmpty) => Ps2Action::WaitInputEmpty,
            Some(Ps2Instr::WaitOutputFull) => Ps2Action::WaitOutputFull,
            Some(Ps2Instr::ReadSaved) => Ps2Action::ReadData,
            Some(Ps2Instr::WriteSavedOr1(port)) => Ps2Action::Write(port, self.saved | 1),
            Some(Ps2Instr::WaitAck(_)) => if self.sub == 0 {
                Ps2Action::WaitOutputFull
            } else if self.sub == 1 {
                Ps2Action::ReadState
            } else if self.sub == 2 {
                Ps2Action::ReadData
            } else {
                self.delivery()
            },
            Some(Ps2Instr::TakeData) => if self.sub <= 1 {
                Ps2Action::ReadState
            } else if self.sub == 2 {
                Ps2Action::ReadData
            } else {
                self.delivery()
            },
        }
    }

    fn delivery(&self) -> (r: Ps2Action)
        ensures
            r == deliver(self.is_mouse, self.data),
    {
        if self.is_mouse { Ps2Action::ToMouse(self.data) } else { Ps2Action::ToKeyboard(self.data) }
    }

    /// Takes what came of the last action and gives the next.
    pub fn step(&mut self, ev: Ps2Event) -> (r: Ps2Action)
        requires
            old(self).wf(),
        ensures
            final(self).wf(),
            *final(self) == ps2_advance(*old(self), ev),
            r == ps2_action(*final(self)),
    {
        let (instr, len) = instruction(self.command, self.pc);
        match instr {
            None => {},
            Some(Ps2Instr::ReadSaved) => match ev {
                Ps2Event::Byte(v) => {
                    self.saved = v;
                    self.next_instr();
                },
                Ps2Event::Completed => {},
            },
            Some(Ps2Instr::WaitAck(required)) => {
                if self.sub == 0 {
                    self.sub = 1;
                } else if self.sub == 1 {
                    match ev {
                        Ps2Event::Byte(s) => {
                            self.sub = 2;
                            self.is_mouse = s & 0x20 != 0;
                        },
                        Ps2Event::Completed => {},
                    }
                } else if self.sub == 2 {
                    match ev {
                        Ps2Event::Byte(d) => if d == PS2_ACK {
                            self.next_instr();
                        } else {
                            self.sub = 3;
                            self.data = d;
                        },
                        Ps2Event::Completed => {},
                    }
                } else if self.round + 1 >= PS2_ACK_ROUNDS {
                    if required {
                        self.finish(len, false);
                    } else {
                        self.next_instr();
                    }
                } else {
                    self.sub = 0;
                    self.round = self.round + 1;
                }
            },
            Some(Ps2Instr::TakeData) => {
                if self.sub == 0 {
                    match ev {
                        Ps2Event::Byte(s) => if s & 0x01 == 0 {
                            let ok = self.ok;
                            self.finish(len, ok);
                        } else {
                            self.sub = 1;
                        },
                        Ps2Event::Completed => {},
                    }
                } else if self.sub == 1 {
                    match ev {
                        Ps2Event::Byte(s) => {
                            self.sub = 2;
                            self.is_mouse = s & 0x20 != 0;
                        },
                        Ps2Event::Completed => {},
                    }
                } else if self.sub == 2 {
                    match ev {
                        Ps2Event::Byte(d) => {
                            self.sub = 3;
                            self.data = d;
                        },
                        Ps2Event::Completed => {},
                    }
                } else {
                    self.next_instr();
                }
            },
            Some(_) => {
                self.next_instr();
            },
        }
        self.action()
    }

    fn next_instr(&mut self)
        requires
            old(self).pc < spec_program(old(self).command).len(),
        ensures
            *final(self) == next_instr(*old(self)),
    {
        self.pc = self.pc + 1;
        self.sub = 0;
        self.round = 0;
    }

    fn finish(&mut self, len: u8, ok: bool)
        requires
            len == spec_program(old(self).command).len(),
        ensures
            *final(self) == finished(*old(self), ok),
    {
        self.pc = len;
        self.sub = 0;
        self.round = 0;
        self.ok = ok;
    }
}

} // verus!
