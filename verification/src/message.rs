//! The closed set of messages exchanged between viewers and the runner.

use vstd::prelude::*;

verus! {

/// One hardware register: an address and its last-known value.
#[derive(Clone, Copy, Debug, PartialEq, Eq, Structural)]
pub struct Register {
    pub address: u32,
    pub value: u32,
}

/// An ordered list of registers, emitted as one atomic update.
#[derive(Clone, Debug, PartialEq, Eq)]
pub struct Registers {
    pub registers: Vec<Register>,
}

impl View for Registers {
    type V = Seq<Register>;

    open spec fn view(&self) -> Seq<Register> {
        self.registers@
    }
}

/// A message from the runner to every connected viewer.
#[derive(Clone, Debug, PartialEq, Eq)]
pub enum Update {
    Registers(Registers),
    Halted,
    Running,
}

/// The mathematical value of an [`Update`].
pub enum UpdateView {
    Registers(Seq<Register>),
    Halted,
    Running,
}

impl View for Update {
    type V = UpdateView;

    open spec fn view(&self) -> UpdateView {
        match self {
            Update::Registers(r) => UpdateView::Registers(r@),
            Update::Halted => UpdateView::Halted,
            Update::Running => UpdateView::Running,
        }
    }
}

/// A message from a viewer to the runner.
#[derive(Clone, Debug, PartialEq, Eq)]
pub enum Command {
    /// Poll the watch-list every given number of milliseconds.
    UpdateInterval(u64),
    /// Replace the whole watch-list with these addresses.
    Watch(Vec<u32>),
    /// Write one value to one address.
    SetRegister(Register),
    Halt,
    Run,
}

/// The mathematical value of a [`Command`].
pub enum CommandView {
    UpdateInterval(u64),
    Watch(Seq<u32>),
    SetRegister(Register),
    Halt,
    Run,
}

impl View for Command {
    type V = CommandView;

    open spec fn view(&self) -> CommandView {
        match self {
            Command::UpdateInterval(ms) => CommandView::UpdateInterval(*ms),
            Command::Watch(addresses) => CommandView::Watch(addresses@),
            Command::SetRegister(r) => CommandView::SetRegister(*r),
            Command::Halt => CommandView::Halt,
            Command::Run => CommandView::Run,
        }
    }
}

} // verus!
