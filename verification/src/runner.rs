//! The register-watch runner.
//!
//! The runner keeps the watch-list and turns every event, a command from a
//! viewer or a tick of the poll timer, into hardware operations and updates.
//! It never touches the hardware: [`Runner::operations`] plans what is to be
//! done under one hold of the session lock, the caller does it, and
//! [`Runner::apply`] takes in how it went.
//!
//! Polling follows the interval, where one was set by `UpdateInterval`: a tick
//! is due whenever that many milliseconds have passed. Without an interval the
//! runner is driven by commands alone, and a snapshot goes out on `Halt` only.

use vstd::prelude::*;
use crate::message::{Command, CommandView, Register, Registers, Update, UpdateView};

verus! {

/// How long a halt may wait for the core's acknowledgement, in milliseconds.
pub const HALT_TIMEOUT_MS: u64 = 1000;

/// One operation against the hardware session.
#[derive(Clone, Copy, Debug, PartialEq, Eq, Structural)]
pub enum HardwareOp {
    /// Halt the core, waiting no longer than this for its acknowledgement.
    Halt { timeout_ms: u64 },
    /// Resume the core.
    Run,
    /// Read the 32-bit word at an address.
    Read32 { address: u32 },
    /// Write a 32-bit word to an address.
    Write32 { address: u32, value: u32 },
}

/// The kind of hardware operation that failed.
#[derive(Clone, Copy, Debug, PartialEq, Eq, Structural)]
pub enum HardwareError {
    Halt,
    Run,
    Read,
    Write,
}

impl HardwareOp {
    /// The kind of error that a failure of this operation is.
    pub open spec fn failure_kind(self) -> HardwareError {
        match self {
            HardwareOp::Halt { .. } => HardwareError::Halt,
            HardwareOp::Run => HardwareError::Run,
            HardwareOp::Read32 { .. } => HardwareError::Read,
            HardwareOp::Write32 { .. } => HardwareError::Write,
        }
    }

    /// The kind of error that a failure of this operation is.
    pub fn error_kind(&self) -> (kind: HardwareError)
        ensures
            kind == self.failure_kind(),
    {
        match self {
            HardwareOp::Halt { timeout_ms: _ } => HardwareError::Halt,
            HardwareOp::Run => HardwareError::Run,
            HardwareOp::Read32 { address: _ } => HardwareError::Read,
            HardwareOp::Write32 { address: _, value: _ } => HardwareError::Write,
        }
    }
}

/// What the runner reacts to.
#[derive(Clone, Debug, PartialEq, Eq)]
pub enum RunnerEvent {
    /// A command from a viewer.
    Command(Command),
    /// The poll timer fired.
    Tick,
}

/// The mathematical value of a [`RunnerEvent`].
pub enum RunnerEventView {
    Command(CommandView),
    Tick,
}

impl View for RunnerEvent {
    type V = RunnerEventView;

    open spec fn view(&self) -> RunnerEventView {
        match self {
            RunnerEvent::Command(command) => RunnerEventView::Command(command@),
            RunnerEvent::Tick => RunnerEventView::Tick,
        }
    }
}

/// A fresh watch-list for a list of addresses: one entry each, in order, with
/// value 0. An address that occurs twice is watched twice.
pub open spec fn fresh_watch(addresses: Seq<u32>) -> Seq<Register> {
    Seq::new(addresses.len(), |i: int| Register { address: addresses[i], value: 0 })
}

/// One read for each entry of a watch-list, in order.
pub open spec fn reads_of(watch: Seq<Register>) -> Seq<HardwareOp> {
    Seq::new(watch.len(), |i: int| HardwareOp::Read32 { address: watch[i].address })
}

/// A watch-list with the value of each entry replaced by the reading at its
/// position.
pub open spec fn refreshed(watch: Seq<Register>, readings: Seq<u32>) -> Seq<Register> {
    Seq::new(watch.len(), |i: int| Register { address: watch[i].address, value: readings[i] })
}

/// The values of a list of updates.
pub open spec fn update_views(updates: Seq<Update>) -> Seq<UpdateView> {
    updates.map_values(|u: Update| u@)
}

/// What the hardware reported, with the readings as a sequence.
pub open spec fn report_view(report: Result<Vec<u32>, HardwareError>) -> Result<
    Seq<u32>,
    HardwareError,
> {
    match report {
        Ok(readings) => Ok(readings@),
        Err(error) => Err(error),
    }
}

/// The state of a runner.
pub struct RunnerView {
    /// The watched registers with their last-known values.
    pub watch: Seq<Register>,
    /// Whether the core was halted by the last halt or run command.
    pub halted: bool,
    /// The poll interval in milliseconds, where one was set.
    pub interval: Option<u64>,
}

impl RunnerView {
    /// The state of a new runner: nothing watched, core running, no interval.
    pub open spec fn initial() -> RunnerView {
        RunnerView { watch: Seq::empty(), halted: false, interval: None }
    }

    /// Whether a tick is due after so many milliseconds.
    pub open spec fn poll_due(self, elapsed_ms: u64) -> bool {
        match self.interval {
            Some(interval) => elapsed_ms >= interval,
            None => false,
        }
    }

    /// The hardware operations that an event asks for, in order.
    pub open spec fn planned(self, event: RunnerEventView) -> Seq<HardwareOp> {
        match event {
            RunnerEventView::Command(CommandView::UpdateInterval(_)) => Seq::empty(),
            RunnerEventView::Command(CommandView::Watch(_)) => Seq::empty(),
            RunnerEventView::Command(CommandView::SetRegister(register)) => seq![
                HardwareOp::Write32 { address: register.address, value: register.value },
            ],
            RunnerEventView::Command(CommandView::Halt) => seq![
                HardwareOp::Halt { timeout_ms: HALT_TIMEOUT_MS },
            ] + reads_of(self.watch),
            RunnerEventView::Command(CommandView::Run) => seq![HardwareOp::Run],
            RunnerEventView::Tick => reads_of(self.watch),
        }
    }

    /// Whether an event ends in a snapshot of the watch-list.
    pub open spec fn polls(event: RunnerEventView) -> bool {
        event is Tick || event == RunnerEventView::Command(CommandView::Halt)
    }

    /// The state after an event, given the readings that its reads brought.
    pub open spec fn next(self, event: RunnerEventView, readings: Seq<u32>) -> RunnerView {
        match event {
            RunnerEventView::Command(CommandView::UpdateInterval(ms)) => RunnerView {
                interval: Some(ms),
                ..self
            },
            RunnerEventView::Command(CommandView::Watch(addresses)) => RunnerView {
                watch: fresh_watch(addresses),
                ..self
            },
            RunnerEventView::Command(CommandView::SetRegister(_)) => self,
            RunnerEventView::Command(CommandView::Halt) => RunnerView {
                watch: refreshed(self.watch, readings),
                halted: true,
                ..self
            },
            RunnerEventView::Command(CommandView::Run) => RunnerView { halted: false, ..self },
            RunnerEventView::Tick => RunnerView { watch: refreshed(self.watch, readings), ..self },
        }
    }

    /// The updates that an event emits, in order, given the readings that its
    /// reads brought.
    pub open spec fn emitted(self, event: RunnerEventView, readings: Seq<u32>) -> Seq<UpdateView> {
        match event {
            RunnerEventView::Command(CommandView::Halt) => seq![
                UpdateView::Halted,
                UpdateView::Registers(refreshed(self.watch, readings)),
            ],
            RunnerEventView::Command(CommandView::Run) => seq![UpdateView::Running],
            RunnerEventView::Tick => seq![UpdateView::Registers(refreshed(self.watch, readings))],
            _ => Seq::empty(),
        }
    }

    /// The error in which an event ends, if it ends in one: the hardware's
    /// own, or a failed read where a snapshot lacks a reading for an entry or
    /// has one too many.
    pub open spec fn failure(
        self,
        event: RunnerEventView,
        report: Result<Seq<u32>, HardwareError>,
    ) -> Option<HardwareError> {
        match report {
            Err(error) => Some(error),
            Ok(readings) => if Self::polls(event) && readings.len() != self.watch.len() {
                Some(HardwareError::Read)
            } else {
                None
            },
        }
    }
}

/// The addresses of a watch-list, in order.
pub open spec fn addresses_of(watch: Seq<Register>) -> Seq<u32> {
    Seq::new(watch.len(), |i: int| watch[i].address)
}

/// A watch command replaces the whole watch-list, whatever was watched
/// before: after `Watch(first)` and then `Watch(second)`, the runner plans one
/// read for each address of `second` and no other, and every snapshot, on a
/// tick or on a halt, holds exactly the addresses of `second`, in order.
pub proof fn lemma_watch_replaces_watch_list(
    state: RunnerView,
    first: Seq<u32>,
    second: Seq<u32>,
    readings: Seq<u32>,
)
    requires
        readings.len() == second.len(),
    ensures
        ({
            let watching = state.next(
                RunnerEventView::Command(CommandView::Watch(first)),
                Seq::empty(),
            ).next(RunnerEventView::Command(CommandView::Watch(second)), Seq::empty());
            let halt = RunnerEventView::Command(CommandView::Halt);
            let snapshot = refreshed(watching.watch, readings);
            &&& addresses_of(watching.watch) == second
            &&& watching.planned(RunnerEventView::Tick) == reads_of(fresh_watch(second))
            &&& watching.failure(RunnerEventView::Tick, Ok(readings)) is None
            &&& watching.failure(halt, Ok(readings)) is None
            &&& watching.emitted(RunnerEventView::Tick, readings) == seq![
                UpdateView::Registers(snapshot),
            ]
            &&& watching.emitted(halt, readings) == seq![
                UpdateView::Halted,
                UpdateView::Registers(snapshot),
            ]
            &&& addresses_of(snapshot) == second
        }),
{
    let watching = state.next(
        RunnerEventView::Command(CommandView::Watch(first)),
        Seq::empty(),
    ).next(RunnerEventView::Command(CommandView::Watch(second)), Seq::empty());
    assert(addresses_of(watching.watch) =~= second);
    assert(addresses_of(refreshed(watching.watch, readings)) =~= second);
}

/// A halt that the hardware carries out emits exactly one `Halted`, directly
/// followed by exactly one snapshot of the whole watch-list, and nothing else;
/// both come from the one call that takes the halt in, so no later command
/// can come between them. Its plan is the halt, within the timeout, and then
/// one read for each watched register.
pub proof fn lemma_halt_emits_halted_then_snapshot(state: RunnerView, readings: Seq<u32>)
    requires
        readings.len() == state.watch.len(),
    ensures
        ({
            let halt = RunnerEventView::Command(CommandView::Halt);
            let emitted = state.emitted(halt, readings);
            &&& state.failure(halt, Ok(readings)) is None
            &&& state.planned(halt)[0] == HardwareOp::Halt { timeout_ms: HALT_TIMEOUT_MS }
            &&& state.planned(halt).skip(1) == reads_of(state.watch)
            &&& emitted.len() == 2
            &&& emitted[0] == UpdateView::Halted
            &&& emitted[1] == UpdateView::Registers(state.next(halt, readings).watch)
            &&& state.next(halt, readings).watch.len() == state.watch.len()
            &&& addresses_of(state.next(halt, readings).watch) == addresses_of(state.watch)
            &&& state.next(halt, readings).halted
        }),
{
    let halt = RunnerEventView::Command(CommandView::Halt);
    assert(state.planned(halt).skip(1) =~= reads_of(state.watch));
    assert(addresses_of(state.next(halt, readings).watch) =~= addresses_of(state.watch));
}

/// The register-watch runner.
pub struct Runner {
    watch: Vec<Register>,
    halted: bool,
    interval: Option<u64>,
}

impl View for Runner {
    type V = RunnerView;

    closed spec fn view(&self) -> RunnerView {
        RunnerView { watch: self.watch@, halted: self.halted, interval: self.interval }
    }
}

impl Runner {
    /// A runner that watches nothing, with the core running and no interval.
    pub fn new() -> (runner: Runner)
        ensures
            runner@ == RunnerView::initial(),
    {
        Runner { watch: Vec::new(), halted: false, interval: None }
    }

    /// The watched registers with their last-known values.
    pub fn watch(&self) -> (watch: &Vec<Register>)
        ensures
            watch@ == self@.watch,
    {
        &self.watch
    }

    /// Whether the core was halted by the last halt or run command.
    pub fn is_halted(&self) -> (halted: bool)
        ensures
            halted == self@.halted,
    {
        self.halted
    }

    /// The poll interval in milliseconds, where one was set.
    pub fn interval(&self) -> (interval: Option<u64>)
        ensures
            interval == self@.interval,
    {
        self.interval
    }

    /// Whether a tick is due, so many milliseconds after the last one.
    pub fn poll_due(&self, elapsed_ms: u64) -> (due: bool)
        ensures
            due == self@.poll_due(elapsed_ms),
    {
        match self.interval {
            Some(interval) => elapsed_ms >= interval,
            None => false,
        }
    }

    /// One read for each watched register, in order.
    fn reads(&self) -> (ops: Vec<HardwareOp>)
        ensures
            ops@ == reads_of(self@.watch),
    {
        let mut ops: Vec<HardwareOp> = Vec::new();
        let mut i: usize = 0;
        while i < self.watch.len()
            invariant
                i <= self.watch.len(),
                ops@ == reads_of(self.watch@.take(i as int)),
            decreases self.watch.len() - i,
        {
            ops.push(HardwareOp::Read32 { address: self.watch[i].address });
            assert(ops@ =~= reads_of(self.watch@.take(i + 1)));
            i += 1;
        }
        assert(self.watch@.take(i as int) =~= self.watch@);
        ops
    }

    /// Plans an event: the hardware operations to perform, in this order,
    /// under one hold of the session lock. An empty plan needs no lock.
    pub fn operations(&self, event: &RunnerEvent) -> (ops: Vec<HardwareOp>)
        ensures
            ops@ == self@.planned(event@),
    {
        match event {
            RunnerEvent::Command(Command::UpdateInterval(_)) => Vec::new(),
            RunnerEvent::Command(Command::Watch(_)) => Vec::new(),
            RunnerEvent::Command(Command::SetRegister(register)) => {
                let mut ops: Vec<HardwareOp> = Vec::new();
                ops.push(HardwareOp::Write32 { address: register.address, value: register.value });
                assert(ops@ =~= self@.planned(event@));
                ops
            },
            RunnerEvent::Command(Command::Halt) => {
                let mut ops: Vec<HardwareOp> = Vec::new();
                ops.push(HardwareOp::Halt { timeout_ms: HALT_TIMEOUT_MS });
                let mut reads = self.reads();
                ops.append(&mut reads);
                assert(ops@ =~= self@.planned(event@));
                ops
            },
            RunnerEvent::Command(Command::Run) => {
                let mut ops: Vec<HardwareOp> = Vec::new();
                ops.push(HardwareOp::Run);
                assert(ops@ =~= self@.planned(event@));
                ops
            },
            RunnerEvent::Tick => self.reads(),
        }
    }

    /// Replaces the watch-list by fresh entries for these addresses.
    fn replace_watch(&mut self, addresses: &Vec<u32>)
        ensures
            final(self)@ == (RunnerView { watch: fresh_watch(addresses@), ..old(self)@ }),
    {
        let mut watch: Vec<Register> = Vec::new();
        let mut i: usize = 0;
        while i < addresses.len()
            invariant
                i <= addresses.len(),
                watch@ == fresh_watch(addresses@.take(i as int)),
            decreases addresses.len() - i,
        {
            watch.push(Register { address: addresses[i], value: 0 });
            assert(watch@ =~= fresh_watch(addresses@.take(i + 1)));
            i += 1;
        }
        assert(addresses@.take(i as int) =~= addresses@);
        self.watch = watch;
    }

    /// Stores one reading in each entry of the watch-list.
    fn refresh(&mut self, readings: &Vec<u32>)
        requires
            readings@.len() == old(self)@.watch.len(),
        ensures
            final(self)@ == (RunnerView {
                watch: refreshed(old(self)@.watch, readings@),
                ..old(self)@
            }),
    {
        let mut watch: Vec<Register> = Vec::new();
        let mut i: usize = 0;
        while i < self.watch.len()
            invariant
                i <= self.watch.len(),
                readings@.len() == self.watch@.len(),
                watch@ == refreshed(self.watch@, readings@).take(i as int),
            decreases self.watch.len() - i,
        {
            watch.push(Register { address: self.watch[i].address, value: readings[i] });
            assert(watch@ =~= refreshed(self.watch@, readings@).take(i + 1));
            i += 1;
        }
        assert(refreshed(self.watch@, readings@).take(i as int) =~= refreshed(
            self.watch@,
            readings@,
        ));
        self.watch = watch;
    }

    /// Takes in an event together with what the hardware reported for its
    /// plan: the readings of its reads, in order, or the operation that failed.
    ///
    /// On success the state moves on and the updates to send come back, in
    /// order. A halt gives `Halted` and then the snapshot, nothing else. A
    /// hardware error comes back as it is and leaves the state as it was; so
    /// does a snapshot for which a reading is missing or left over, as a
    /// failed read.
    pub fn apply(&mut self, event: RunnerEvent, report: Result<Vec<u32>, HardwareError>) -> (updates:
        Result<Vec<Update>, HardwareError>)
        ensures
            match old(self)@.failure(event@, report_view(report)) {
                Some(error) => updates == Err::<Vec<Update>, HardwareError>(error) && final(self)@
                    == old(self)@,
                None => {
                    &&& updates is Ok
                    &&& final(self)@ == old(self)@.next(event@, report->Ok_0@)
                    &&& update_views(updates->Ok_0@) == old(self)@.emitted(
                        event@,
                        report->Ok_0@,
                    )
                },
            },
    {
        let readings = match report {
            Ok(readings) => readings,
            Err(error) => {
                return Err(error);
            },
        };
        let mut updates: Vec<Update> = Vec::new();
        match event {
            RunnerEvent::Command(Command::UpdateInterval(ms)) => {
                self.interval = Some(ms);
            },
            RunnerEvent::Command(Command::Watch(addresses)) => {
                self.replace_watch(&addresses);
            },
            RunnerEvent::Command(Command::SetRegister(_)) => {},
            RunnerEvent::Command(Command::Halt) => {
                if readings.len() != self.watch.len() {
                    return Err(HardwareError::Read);
                }
                self.refresh(&readings);
                self.halted = true;
                updates.push(Update::Halted);
                let registers = self.watch.clone();
                assert(registers@ =~= self.watch@);
                updates.push(Update::Registers(Registers { registers }));
            },
            RunnerEvent::Command(Command::Run) => {
                self.halted = false;
                updates.push(Update::Running);
            },
            RunnerEvent::Tick => {
                if readings.len() != self.watch.len() {
                    return Err(HardwareError::Read);
                }
                self.refresh(&readings);
                let registers = self.watch.clone();
                assert(registers@ =~= self.watch@);
                updates.push(Update::Registers(Registers { registers }));
            },
        }
        assert(update_views(updates@) =~= old(self)@.emitted(event@, readings@));
        Ok(updates)
    }
}

} // verus!
