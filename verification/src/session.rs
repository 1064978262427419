//! An ideal hardware session: memory that reads back what was written.
//!
//! [`MemorySession`] performs the runner's hardware operations on a map from
//! addresses to words. It stands in for a device wherever none is at hand, and
//! it is the model against which the runner's round trips are stated.

use vstd::prelude::*;
use std::collections::HashMap;
use crate::message::{CommandView, Register, UpdateView};
use crate::runner::{reads_of, refreshed, HardwareOp, RunnerEventView, RunnerView};

verus! {

broadcast use vstd::std_specs::hash::group_hash_axioms;

/// The state of an ideal session.
pub struct SessionView {
    /// The words written so far, by address.
    pub memory: Map<u32, u32>,
    /// Whether the core is halted.
    pub halted: bool,
}

impl SessionView {
    /// The word at an address: the last one written there, or 0.
    pub open spec fn word_at(self, address: u32) -> u32 {
        if self.memory.dom().contains(address) {
            self.memory[address]
        } else {
            0
        }
    }

    /// The state after one operation.
    pub open spec fn after(self, op: HardwareOp) -> SessionView {
        match op {
            HardwareOp::Halt { .. } => SessionView { halted: true, ..self },
            HardwareOp::Run => SessionView { halted: false, ..self },
            HardwareOp::Read32 { .. } => self,
            HardwareOp::Write32 { address, value } => SessionView {
                memory: self.memory.insert(address, value),
                ..self
            },
        }
    }

    /// The state after a list of operations, performed in order.
    pub open spec fn after_all(self, ops: Seq<HardwareOp>) -> SessionView
        decreases ops.len(),
    {
        if ops.len() == 0 {
            self
        } else {
            self.after_all(ops.drop_last()).after(ops.last())
        }
    }

    /// The words that the reads among a list of operations bring, in order.
    pub open spec fn readings(self, ops: Seq<HardwareOp>) -> Seq<u32>
        decreases ops.len(),
    {
        if ops.len() == 0 {
            Seq::empty()
        } else {
            let head = self.readings(ops.drop_last());
            match ops.last() {
                HardwareOp::Read32 { address } => head.push(
                    self.after_all(ops.drop_last()).word_at(address),
                ),
                _ => head,
            }
        }
    }
}

/// Reading a watch-list changes nothing, and brings the word at each watched
/// address, in order.
pub proof fn lemma_reads_of_watch(session: SessionView, watch: Seq<Register>)
    ensures
        session.after_all(reads_of(watch)) == session,
        session.readings(reads_of(watch)) == Seq::new(
            watch.len(),
            |i: int| session.word_at(watch[i].address),
        ),
    decreases watch.len(),
{
    let ops = reads_of(watch);
    if watch.len() == 0 {
        assert(session.readings(ops) =~= Seq::new(
            watch.len(),
            |i: int| session.word_at(watch[i].address),
        ));
    } else {
        let front = watch.drop_last();
        lemma_reads_of_watch(session, front);
        assert(ops.drop_last() =~= reads_of(front));
        assert(ops.last() == HardwareOp::Read32 { address: watch.last().address });
        assert(session.readings(ops) =~= Seq::new(
            watch.len(),
            |i: int| session.word_at(watch[i].address),
        ));
    }
}

/// A value that was set is the value that the next poll shows.
///
/// The runner takes in `SetRegister` and the session performs its plan; then
/// the timer ticks and the session performs that plan. The tick ends in one
/// snapshot of the whole watch-list, in which every entry for the address that
/// was written holds the value that was written.
pub proof fn lemma_set_register_shows_in_next_poll(
    state: RunnerView,
    session: SessionView,
    register: Register,
)
    ensures
        ({
            let set = RunnerEventView::Command(CommandView::SetRegister(register));
            let written = session.after_all(state.planned(set));
            let watching = state.next(set, session.readings(state.planned(set)));
            let readings = written.readings(watching.planned(RunnerEventView::Tick));
            let snapshot = refreshed(watching.watch, readings);
            &&& watching == state
            &&& watching.failure(RunnerEventView::Tick, Ok(readings)) is None
            &&& watching.emitted(RunnerEventView::Tick, readings) == seq![
                UpdateView::Registers(snapshot),
            ]
            &&& watching.next(RunnerEventView::Tick, readings).watch == snapshot
            &&& snapshot.len() == state.watch.len()
            &&& forall|i: int|
                0 <= i < snapshot.len() ==> (#[trigger] snapshot[i]).address
                    == state.watch[i].address
            &&& forall|i: int|
                0 <= i < snapshot.len() && (#[trigger] snapshot[i]).address == register.address
                    ==> snapshot[i].value == register.value
        }),
{
    let set = RunnerEventView::Command(CommandView::SetRegister(register));
    let ops = state.planned(set);
    assert(ops.drop_last() =~= Seq::<HardwareOp>::empty());
    assert(session.after_all(ops.drop_last()) == session);
    let written = session.after_all(ops);
    assert(written == session.after(
        HardwareOp::Write32 { address: register.address, value: register.value },
    ));
    lemma_reads_of_watch(written, state.watch);
}

/// An ideal hardware session.
pub struct MemorySession {
    memory: HashMap<u32, u32>,
    halted: bool,
}

impl View for MemorySession {
    type V = SessionView;

    closed spec fn view(&self) -> SessionView {
        SessionView { memory: self.memory@, halted: self.halted }
    }
}

impl MemorySession {
    /// A session whose memory is all zeros and whose core runs.
    pub fn new() -> (session: MemorySession)
        ensures
            session@ == (SessionView { memory: Map::empty(), halted: false }),
    {
        MemorySession { memory: HashMap::new(), halted: false }
    }

    /// Whether the core is halted.
    pub fn is_halted(&self) -> (halted: bool)
        ensures
            halted == self@.halted,
    {
        self.halted
    }

    /// Reads the word at an address.
    pub fn read32(&self, address: u32) -> (word: u32)
        ensures
            word == self@.word_at(address),
    {
        match self.memory.get(&address) {
            Some(word) => *word,
            None => 0,
        }
    }

    /// Writes a word to an address.
    pub fn write32(&mut self, address: u32, value: u32)
        ensures
            final(self)@ == old(self)@.after(HardwareOp::Write32 { address, value }),
    {
        self.memory.insert(address, value);
    }

    /// Performs one operation. Gives the word that was read, where the
    /// operation is a read.
    pub fn perform(&mut self, op: HardwareOp) -> (word: Option<u32>)
        ensures
            final(self)@ == old(self)@.after(op),
            word == match op {
                HardwareOp::Read32 { address } => Some(old(self)@.word_at(address)),
                _ => None,
            },
    {
        match op {
            HardwareOp::Halt { timeout_ms: _ } => {
                self.halted = true;
                None
            },
            HardwareOp::Run => {
                self.halted = false;
                None
            },
            HardwareOp::Read32 { address } => Some(self.read32(address)),
            HardwareOp::Write32 { address, value } => {
                self.write32(address, value);
                None
            },
        }
    }

    /// Performs a list of operations in order, and gives the words that its
    /// reads brought, in order.
    pub fn perform_all(&mut self, ops: &Vec<HardwareOp>) -> (readings: Vec<u32>)
        ensures
            final(self)@ == old(self)@.after_all(ops@),
            readings@ == old(self)@.readings(ops@),
    {
        let mut readings: Vec<u32> = Vec::new();
        let mut i: usize = 0;
        while i < ops.len()
            invariant
                i <= ops.len(),
                self@ == old(self)@.after_all(ops@.take(i as int)),
                readings@ == old(self)@.readings(ops@.take(i as int)),
            decreases ops.len() - i,
        {
            assert(ops@.take(i + 1).drop_last() =~= ops@.take(i as int));
            match self.perform(ops[i]) {
                Some(word) => {
                    readings.push(word);
                },
                None => {},
            }
            i += 1;
        }
        assert(ops@.take(i as int) =~= ops@);
        readings
    }
}

} // verus!
