//! The driver core: the pixel buffer, the polarity bit and the transaction
//! that carries a command to the panel.
//!
//! The driver does no input or output of its own. It asks for one bus
//! operation at a time, as an [`Action`], and is told how that operation went
//! before it asks for the next. Whoever owns the bus and the select line
//! carries the actions out.

use crate::bitmap::{Bitmap, PixelBuffer};
use crate::protocol::{clear_frame, encode_clear, encode_frame, frame, Command, Controller};
use vstd::prelude::*;

verus! {

/// Why an operation failed.
#[derive(Clone, Copy, Debug, PartialEq, Eq)]
pub enum Fault {
    /// The bus did not take a byte.
    Transport,
    /// The select line could not be driven.
    Control,
}

/// What the driver asks of the bus next.
#[derive(Clone, Copy, Debug, PartialEq, Eq)]
pub enum Action {
    /// Assert chip-select.
    AssertSelect,
    /// Write this byte.
    Write(u8),
    /// Deassert chip-select, which is also its idle level.
    DeassertSelect,
    /// Nothing more: the operation has ended, with this result.
    Done(Result<(), Fault>),
}

/// Where the driver stands in its dealings with the bus.
pub enum Stage {
    /// Between transactions.
    Idle,
    /// Being set up: the select line is being driven to its idle level.
    Resetting,
    /// Chip-select is being asserted for the given command.
    Selecting(Command),
    /// Chip-select is asserted and the byte at the given place of the frame
    /// is being written; the bytes before it have been written.
    Writing(Seq<u8>, int),
    /// Chip-select is being deasserted, after the given fault if any.
    Releasing(Option<Fault>),
}

/// The mathematical content of a driver.
pub struct State {
    pub controller: Controller,
    pub bitmap: Bitmap,
    pub polarity: bool,
    pub stage: Stage,
}

/// The result of a transaction whose writes ended in `fault`, if any, and
/// whose chip-select was then deasserted with success or not: a fault of the
/// bus comes before one of the select line.
pub open spec fn verdict(fault: Option<Fault>, released: bool) -> Result<(), Fault> {
    match fault {
        Some(fault) => Err(fault),
        None => if released {
            Ok(())
        } else {
            Err(Fault::Control)
        },
    }
}

impl State {
    /// The controller is a sound one, the bitmap is well formed and no
    /// larger than coordinates can reach, and a byte being written is a byte
    /// of the frame.
    pub open spec fn wf(self) -> bool {
        &&& self.controller.wf()
        &&& self.bitmap.wf()
        &&& self.bitmap.width <= u8::MAX
        &&& self.bitmap.height <= u8::MAX
        &&& (self.stage matches Stage::Writing(bytes, at) ==> 0 <= at < bytes.len())
    }

    /// A driver as it is made: every pixel light, the polarity high, and the
    /// select line about to be driven to its idle level.
    pub open spec fn fresh(controller: Controller, width: nat, height: nat) -> State {
        State {
            controller,
            bitmap: Bitmap::blank(width, height),
            polarity: true,
            stage: Stage::Resetting,
        }
    }

    /// No transaction is under way.
    pub open spec fn idle(self) -> bool {
        self.stage is Idle
    }

    /// Chip-select is asserted.
    pub open spec fn selected(self) -> bool {
        self.stage is Writing || self.stage is Releasing
    }

    /// The bytes that carry `command` to the panel, as things stand: the
    /// command byte at the present polarity and what follows it.
    pub open spec fn frame_for(self, command: Command) -> Seq<u8> {
        match command {
            Command::Clear => clear_frame(self.controller.command_byte_of(command, self.polarity)),
            Command::Write => frame(
                self.controller.framing,
                self.controller.command_byte_of(command, self.polarity),
                self.bitmap,
            ),
        }
    }

    /// The driver with its pixels changed.
    pub open spec fn with_bitmap(self, bitmap: Bitmap) -> State {
        State { bitmap, ..self }
    }

    /// The driver at another stage.
    pub open spec fn at(self, stage: Stage) -> State {
        State { stage, ..self }
    }

    /// The driver after a transaction in which a command was issued: the
    /// polarity has flipped, once, and the bus is at rest.
    pub open spec fn concluded(self) -> State {
        State { polarity: !self.polarity, stage: Stage::Idle, ..self }
    }

    /// The driver as it takes up `command`: a clear zeroes the buffer before
    /// anything is sent, and chip-select is to be asserted.
    pub open spec fn begin(self, command: Command) -> State {
        State {
            bitmap: match command {
                Command::Clear => self.bitmap.cleared(),
                Command::Write => self.bitmap,
            },
            stage: Stage::Selecting(command),
            ..self
        }
    }

    /// The driver once the outcome of the action it asked for is known, and
    /// the action it asks for next.
    ///
    /// An idle driver has asked for nothing.
    pub open spec fn step(self, ok: bool) -> (State, Action)
        recommends
            !self.idle(),
    {
        match self.stage {
            Stage::Idle => (self, Action::Done(Ok(()))),
            Stage::Resetting => if ok {
                (self.begin(Command::Clear), Action::AssertSelect)
            } else {
                (self.at(Stage::Idle), Action::Done(Err(Fault::Control)))
            },
            Stage::Selecting(command) => if ok {
                (
                    State {
                        polarity: !self.polarity,
                        stage: Stage::Writing(self.frame_for(command), 0),
                        ..self
                    },
                    Action::Write(self.frame_for(command)[0]),
                )
            } else {
                (self.at(Stage::Idle), Action::Done(Err(Fault::Control)))
            },
            Stage::Writing(bytes, at) => if !ok {
                (self.at(Stage::Releasing(Some(Fault::Transport))), Action::DeassertSelect)
            } else if at + 1 < bytes.len() {
                (self.at(Stage::Writing(bytes, at + 1)), Action::Write(bytes[at + 1]))
            } else {
                (self.at(Stage::Releasing(None)), Action::DeassertSelect)
            },
            Stage::Releasing(fault) => (self.at(Stage::Idle), Action::Done(verdict(fault, ok))),
        }
    }
}

/// The stage as the driver keeps it; the frame lies beside it.
#[derive(Clone, Copy)]
enum Phase {
    Idle,
    Resetting,
    Selecting(Command),
    Writing(usize),
    Releasing(Option<Fault>),
}

/// The driver core for one panel.
pub struct Display {
    controller: Controller,
    pixels: PixelBuffer,
    vcom: bool,
    phase: Phase,
    frame: Vec<u8>,
}

impl View for Display {
    type V = State;

    closed spec fn view(&self) -> State {
        State {
            controller: self.controller,
            bitmap: self.pixels@,
            polarity: self.vcom,
            stage: match self.phase {
                Phase::Idle => Stage::Idle,
                Phase::Resetting => Stage::Resetting,
                Phase::Selecting(command) => Stage::Selecting(command),
                Phase::Writing(at) => Stage::Writing(self.frame@, at as int),
                Phase::Releasing(fault) => Stage::Releasing(fault),
            },
        }
    }
}

impl Display {
    /// The driver is in a state that its operations can start from.
    pub open spec fn wf(&self) -> bool {
        self@.wf()
    }

    /// A driver for a panel of `width` by `height` pixels behind the given
    /// controller, and the first thing it asks for. Every pixel is light and
    /// the polarity is high. The driver is not idle yet: it asks for the
    /// select line to be driven to its idle level and then clears the panel.
    /// Setting up has failed if either of the two fails.
    pub fn new(controller: Controller, width: u8, height: u8) -> (made: (Display, Action))
        requires
            controller.wf(),
        ensures
            made.0.wf(),
            made.0@ == State::fresh(controller, width as nat, height as nat),
            made.1 == Action::DeassertSelect,
    {
        let display = Display {
            controller,
            pixels: PixelBuffer::new(width, height),
            vcom: true,
            phase: Phase::Resetting,
            frame: Vec::new(),
        };
        (display, Action::DeassertSelect)
    }

    /// Whether no transaction is under way.
    pub fn is_idle(&self) -> (idle: bool)
        ensures
            idle == self@.idle(),
    {
        match self.phase {
            Phase::Idle => true,
            _ => false,
        }
    }

    /// The polarity that the next command byte will carry.
    pub fn polarity(&self) -> (polarity: bool)
        ensures
            polarity == self@.polarity,
    {
        self.vcom
    }

    /// Width of the panel in pixels.
    pub fn width(&self) -> (width: u8)
        ensures
            width == self@.bitmap.width,
    {
        self.pixels.width()
    }

    /// Height of the panel in pixels.
    pub fn height(&self) -> (height: u8)
        ensures
            height == self@.bitmap.height,
    {
        self.pixels.height()
    }

    /// Make pixel `(x, y)` dark or light in the buffer. Coordinates outside
    /// the panel are ignored. The panel shows the change after the next
    /// refresh.
    pub fn set_pixel(&mut self, x: u8, y: u8, dark: bool)
        requires
            old(self).wf(),
        ensures
            final(self).wf(),
            final(self)@ == old(self)@.with_bitmap(
                old(self)@.bitmap.with_pixel(x as int, y as int, dark),
            ),
    {
        self.pixels.set_pixel(x, y, dark);
    }

    /// Whether pixel `(x, y)` is dark in the buffer, or `None` for
    /// coordinates outside the panel.
    pub fn get_pixel(&self, x: u8, y: u8) -> (pixel: Option<bool>)
        requires
            self.wf(),
        ensures
            pixel == (if self@.bitmap.in_range(x as int, y as int) {
                Some(self@.bitmap.pixel(x as int, y as int))
            } else {
                None
            }),
    {
        self.pixels.get_pixel(x, y)
    }

    /// Start clearing the buffer and the panel: every pixel of the buffer
    /// becomes light at once, and the transaction that tells the panel
    /// opens by asserting chip-select.
    pub fn clear(&mut self) -> (action: Action)
        requires
            old(self).wf(),
            old(self)@.idle(),
        ensures
            final(self).wf(),
            final(self)@ == old(self)@.begin(Command::Clear),
            action == Action::AssertSelect,
    {
        self.begin(Command::Clear)
    }

    /// Start sending the buffer to the panel: the transaction opens by
    /// asserting chip-select.
    pub fn refresh(&mut self) -> (action: Action)
        requires
            old(self).wf(),
            old(self)@.idle(),
        ensures
            final(self).wf(),
            final(self)@ == old(self)@.begin(Command::Write),
            action == Action::AssertSelect,
    {
        self.begin(Command::Write)
    }

    /// Take note of how the action asked for last went, and ask for the
    /// next.
    ///
    /// A failure to assert chip-select ends the transaction at once. A byte
    /// that the bus does not take is the last byte tried, and chip-select
    /// is deasserted all the same.
    pub fn advance(&mut self, ok: bool) -> (action: Action)
        requires
            old(self).wf(),
            !old(self)@.idle(),
        ensures
            final(self).wf(),
            final(self)@ == old(self)@.step(ok).0,
            action == old(self)@.step(ok).1,
    {
        match self.phase {
            Phase::Idle => Action::Done(Ok(())),
            Phase::Resetting => {
                if ok {
                    self.begin(Command::Clear)
                } else {
                    self.phase = Phase::Idle;
                    Action::Done(Err(Fault::Control))
                }
            },
            Phase::Selecting(command) => {
                if ok {
                    let ghost before = self@;
                    let byte = self.command(command);
                    self.frame = match command {
                        Command::Clear => encode_clear(byte),
                        Command::Write => encode_frame(self.controller.framing, byte, &self.pixels),
                    };
                    proof {
                        crate::protocol::lemma_frame_len(
                            self.controller.framing,
                            byte,
                            self.pixels@,
                        );
                        assert(self.frame@ == before.frame_for(command));
                    }
                    self.phase = Phase::Writing(0);
                    Action::Write(self.frame[0])
                } else {
                    self.phase = Phase::Idle;
                    Action::Done(Err(Fault::Control))
                }
            },
            Phase::Writing(at) => {
                let len = self.frame.len();
                if !ok {
                    self.phase = Phase::Releasing(Some(Fault::Transport));
                    Action::DeassertSelect
                } else if at + 1 < len {
                    self.phase = Phase::Writing(at + 1);
                    Action::Write(self.frame[at + 1])
                } else {
                    self.phase = Phase::Releasing(None);
                    Action::DeassertSelect
                }
            },
            Phase::Releasing(fault) => {
                self.phase = Phase::Idle;
                Action::Done(
                    match fault {
                        Some(fault) => Err(fault),
                        None => if ok {
                            Ok(())
                        } else {
                            Err(Fault::Control)
                        },
                    },
                )
            },
        }
    }

    /// Take up `command`.
    fn begin(&mut self, command: Command) -> (action: Action)
        requires
            old(self).wf(),
        ensures
            final(self).wf(),
            final(self)@ == old(self)@.begin(command),
            action == Action::AssertSelect,
    {
        match command {
            Command::Clear => {
                self.pixels.clear();
            },
            Command::Write => {},
        }
        self.phase = Phase::Selecting(command);
        Action::AssertSelect
    }

    /// The command byte for `command` at the present polarity. Issuing a
    /// command flips the polarity for the next one.
    fn command(&mut self, command: Command) -> (byte: u8)
        requires
            old(self).wf(),
        ensures
            final(self).wf(),
            byte == old(self)@.controller.command_byte_of(command, old(self)@.polarity),
            final(self)@ == (State { polarity: !old(self)@.polarity, ..old(self)@ }),
    {
        let byte = self.controller.command_byte(command, self.vcom);
        self.toggle_vcom();
        byte
    }

    /// Flip the polarity.
    fn toggle_vcom(&mut self)
        requires
            old(self).wf(),
        ensures
            final(self).wf(),
            final(self)@ == (State { polarity: !old(self)@.polarity, ..old(self)@ }),
    {
        self.vcom = !self.vcom;
    }
}

} // verus!
