//! The connection broker's bookkeeping.
//!
//! A broker serves any number of viewers from one worker that ticks: check the
//! stop signal, accept at most one new connection, resume unfinished
//! handshakes, read at most one message from every connection, write at most
//! one pending update to every connection, drop the connections that failed.
//!
//! The worker owns the sockets and does the I/O. The [`Broker`] owns the
//! decisions: it hands out the handle under which a connection is kept, is told
//! the outcome of every operation, and answers which connections stay, which
//! commands go on to the runner, and what is written to whom.

use vstd::prelude::*;
use crate::channel::UpdaterChannel;
use crate::message::{Command, CommandView, Update, UpdateView};
use crate::wire::{decode_command, decoded_command, encode_update, update_text};

verus! {

/// How long the worker rests between two ticks, in microseconds.
pub const TICK_PAUSE_MICROS: u64 = 100;

/// How one attempt at the transport handshake of a connection ended.
#[derive(Clone, Copy, Debug, PartialEq, Eq, Structural)]
pub enum HandshakeOutcome {
    /// The handshake is complete.
    Established,
    /// The handshake would block; it can be resumed.
    Interrupted,
    /// The handshake failed for good.
    Failed,
}

/// How one attempt to accept a new connection ended.
#[derive(Clone, Copy, Debug, PartialEq, Eq, Structural)]
pub enum AcceptOutcome {
    /// A connection came in, and its handshake was attempted.
    Incoming(HandshakeOutcome),
    /// No connection is pending.
    WouldBlock,
    /// Accepting failed this time.
    Failed,
    /// The listener can never yield another connection.
    Exhausted,
}

/// What the worker does with the connection it tried to accept.
#[derive(Clone, Copy, Debug, PartialEq, Eq, Structural)]
pub enum AcceptDecision {
    /// Serve the connection under this handle.
    Admit(u64),
    /// Keep the unfinished handshake under this handle and resume it next tick.
    Retry(u64),
    /// Drop the candidate connection.
    Discard,
    /// There is no candidate; go on with the tick.
    Continue,
    /// End the worker.
    Shutdown,
}

/// How one attempt to read a message from a connection ended.
#[derive(Clone, Debug, PartialEq, Eq)]
pub enum ReadOutcome {
    /// A complete text message.
    Text(String),
    /// A complete message of another kind.
    Other,
    /// No message is ready.
    WouldBlock,
    /// The peer closed the connection.
    Closed,
    /// The transport failed.
    Failed,
}

/// How one attempt to write a message to a connection ended.
#[derive(Clone, Copy, Debug, PartialEq, Eq, Structural)]
pub enum WriteOutcome {
    /// The message was written.
    Sent,
    /// The transport would block.
    WouldBlock,
    /// The peer closed the connection.
    Closed,
    /// The transport failed.
    Failed,
}

/// One update on its way to the viewers: the same payload for every target.
#[derive(Clone, Debug, PartialEq, Eq)]
pub struct Broadcast {
    /// The text frame to write.
    pub payload: String,
    /// The handles of the connections to write it to, in scan order.
    pub targets: Vec<u64>,
}

/// The mathematical value of a [`Broadcast`].
pub struct BroadcastView {
    pub payload: Seq<char>,
    pub targets: Seq<u64>,
}

impl View for Broadcast {
    type V = BroadcastView;

    open spec fn view(&self) -> BroadcastView {
        BroadcastView { payload: self.payload@, targets: self.targets@ }
    }
}

/// Whether position `i` is marked.
pub open spec fn mark_at(marks: Seq<bool>, i: int) -> bool {
    0 <= i < marks.len() && marks[i]
}

/// The handles whose position is marked (`wanted`) or is not (`!wanted`), in
/// their order. A position beyond the marks counts as unmarked.
pub open spec fn marked(handles: Seq<u64>, marks: Seq<bool>, wanted: bool) -> Seq<u64>
    decreases handles.len(),
{
    if handles.len() == 0 {
        Seq::empty()
    } else {
        let head = marked(handles.drop_last(), marks, wanted);
        if mark_at(marks, handles.len() - 1) == wanted {
            head.push(handles.last())
        } else {
            head
        }
    }
}

/// Whether a read outcome ends its connection: every transport error does,
/// and a close; a read that would block does not, nor does any message.
pub open spec fn read_closes(outcome: ReadOutcome) -> bool {
    outcome is Closed || outcome is Failed
}

/// Whether a write outcome ends its connection.
pub open spec fn write_closes(outcome: WriteOutcome) -> bool {
    outcome is Closed || outcome is Failed
}

/// For each read outcome, whether it ends its connection.
pub open spec fn read_marks(outcomes: Seq<ReadOutcome>) -> Seq<bool> {
    Seq::new(outcomes.len(), |i: int| read_closes(outcomes[i]))
}

/// For each write outcome, whether it ends its connection.
pub open spec fn write_marks(outcomes: Seq<WriteOutcome>) -> Seq<bool> {
    Seq::new(outcomes.len(), |i: int| write_closes(outcomes[i]))
}

/// For each handshake outcome, whether it is `which`.
pub open spec fn handshake_marks(outcomes: Seq<HandshakeOutcome>, which: HandshakeOutcome) -> Seq<
    bool,
> {
    Seq::new(outcomes.len(), |i: int| outcomes[i] == which)
}

/// For each handshake outcome, whether the handshake is over.
pub open spec fn settled_marks(outcomes: Seq<HandshakeOutcome>) -> Seq<bool> {
    Seq::new(outcomes.len(), |i: int| outcomes[i] != HandshakeOutcome::Interrupted)
}

/// The commands that a list of read outcomes brings, in order: one for each
/// text message that decodes as a command, none for anything else.
pub open spec fn forwarded(outcomes: Seq<ReadOutcome>) -> Seq<CommandView>
    decreases outcomes.len(),
{
    if outcomes.len() == 0 {
        Seq::empty()
    } else {
        let head = forwarded(outcomes.drop_last());
        match outcomes.last() {
            ReadOutcome::Text(text) => match decoded_command(text@) {
                Ok(command) => head.push(command),
                Err(_) => head,
            },
            _ => head,
        }
    }
}

/// The values of a list of commands.
pub open spec fn command_views(commands: Seq<Command>) -> Seq<CommandView> {
    commands.map_values(|c: Command| c@)
}

/// How many read outcomes are taken in: one for each live connection, as far
/// as there are outcomes.
pub open spec fn served(state: BrokerView, outcomes: Seq<ReadOutcome>) -> int {
    if state.sockets.len() <= outcomes.len() {
        state.sockets.len() as int
    } else {
        outcomes.len() as int
    }
}

/// The state of a broker.
pub struct BrokerView {
    /// The handles of the live connections, in scan order.
    pub sockets: Seq<u64>,
    /// The handles of the connections whose handshake is unfinished.
    pub handshakes: Seq<u64>,
    /// The handle that the next connection gets.
    pub next_handle: u64,
    /// Whether the worker has ended.
    pub stopped: bool,
}

impl BrokerView {
    /// No handle is in use twice, none is at or above the next to hand out,
    /// and a worker that has ended holds no connection.
    pub open spec fn valid(self) -> bool {
        &&& self.stopped ==> self.sockets.len() == 0 && self.handshakes.len() == 0
        &&& self.sockets.no_duplicates()
        &&& self.handshakes.no_duplicates()
        &&& forall|i: int, j: int|
            0 <= i < self.sockets.len() && 0 <= j < self.handshakes.len()
                ==> self.sockets[i] != self.handshakes[j]
        &&& forall|i: int|
            0 <= i < self.sockets.len() ==> #[trigger] self.sockets[i] < self.next_handle
        &&& forall|i: int|
            0 <= i < self.handshakes.len() ==> #[trigger] self.handshakes[i] < self.next_handle
    }

    /// The state at the start of a tick: a requested stop ends the worker and
    /// drops every connection; otherwise nothing changes.
    pub open spec fn after_begin_tick(self, stop_requested: bool) -> BrokerView {
        if stop_requested || self.stopped {
            BrokerView { sockets: Seq::empty(), handshakes: Seq::empty(), stopped: true, ..self }
        } else {
            self
        }
    }

    /// Whether a new connection can get a handle. Handles are never used
    /// again, so they run out after `u64::MAX` connections.
    pub open spec fn has_room(self) -> bool {
        self.next_handle < u64::MAX
    }

    /// The decision on an accept outcome: a worker that has ended takes no one;
    /// an exhausted listener ends the worker; a connection whose handshake is
    /// complete is admitted, one whose handshake would block is kept for
    /// another attempt, both under a new handle as long as there is one; a
    /// connection whose handshake failed is dropped; and where nothing came
    /// in, the tick goes on.
    pub open spec fn accept_decision(self, outcome: AcceptOutcome) -> AcceptDecision {
        if self.stopped {
            AcceptDecision::Shutdown
        } else {
            match outcome {
                AcceptOutcome::Exhausted => AcceptDecision::Shutdown,
                AcceptOutcome::WouldBlock => AcceptDecision::Continue,
                AcceptOutcome::Failed => AcceptDecision::Continue,
                AcceptOutcome::Incoming(HandshakeOutcome::Failed) => AcceptDecision::Discard,
                AcceptOutcome::Incoming(HandshakeOutcome::Established) => if self.has_room() {
                    AcceptDecision::Admit(self.next_handle)
                } else {
                    AcceptDecision::Discard
                },
                AcceptOutcome::Incoming(HandshakeOutcome::Interrupted) => if self.has_room() {
                    AcceptDecision::Retry(self.next_handle)
                } else {
                    AcceptDecision::Discard
                },
            }
        }
    }

    /// The state after an accept outcome.
    pub open spec fn after_accept(self, outcome: AcceptOutcome) -> BrokerView {
        match self.accept_decision(outcome) {
            AcceptDecision::Admit(handle) => BrokerView {
                sockets: self.sockets.push(handle),
                next_handle: (handle + 1) as u64,
                ..self
            },
            AcceptDecision::Retry(handle) => BrokerView {
                handshakes: self.handshakes.push(handle),
                next_handle: (handle + 1) as u64,
                ..self
            },
            AcceptDecision::Shutdown => BrokerView {
                sockets: Seq::empty(),
                handshakes: Seq::empty(),
                stopped: true,
                ..self
            },
            _ => self,
        }
    }

    /// The state after the unfinished handshakes were resumed, one outcome for
    /// each in order: an established connection joins the live ones, behind
    /// them; a failed one leaves; an interrupted one stays unfinished, as does
    /// one without an outcome.
    pub open spec fn after_handshakes(self, outcomes: Seq<HandshakeOutcome>) -> BrokerView {
        BrokerView {
            sockets: self.sockets + marked(
                self.handshakes,
                handshake_marks(outcomes, HandshakeOutcome::Established),
                true,
            ),
            handshakes: marked(self.handshakes, settled_marks(outcomes), false),
            ..self
        }
    }

    /// The state after one message was read from every live connection, one
    /// outcome for each in order: the connections whose outcome ends them
    /// leave; all others stay, in their order.
    pub open spec fn after_reads(self, outcomes: Seq<ReadOutcome>) -> BrokerView {
        BrokerView { sockets: marked(self.sockets, read_marks(outcomes), false), ..self }
    }

    /// The state after one message was written to every live connection, one
    /// outcome for each in order.
    pub open spec fn after_writes(self, outcomes: Seq<WriteOutcome>) -> BrokerView {
        BrokerView { sockets: marked(self.sockets, write_marks(outcomes), false), ..self }
    }
}

/// The broadcast of an update from a state: the update's wire text, for
/// every live connection.
pub open spec fn broadcast_of(state: BrokerView, update: UpdateView) -> BroadcastView {
    BroadcastView { payload: update_text(update), targets: state.sockets }
}

/// The bookkeeping of one connection broker.
pub struct Broker {
    sockets: Vec<u64>,
    handshakes: Vec<u64>,
    next_handle: u64,
    stopped: bool,
}

impl View for Broker {
    type V = BrokerView;

    closed spec fn view(&self) -> BrokerView {
        BrokerView {
            sockets: self.sockets@,
            handshakes: self.handshakes@,
            next_handle: self.next_handle,
            stopped: self.stopped,
        }
    }
}

impl Broker {
    #[verifier::type_invariant]
    closed spec fn well_formed(self) -> bool {
        self@.valid()
    }

    /// A broker without connections, whose worker has not ended.
    pub fn new() -> (broker: Broker)
        ensures
            broker@ == (BrokerView {
                sockets: Seq::empty(),
                handshakes: Seq::empty(),
                next_handle: 0,
                stopped: false,
            }),
            broker@.valid(),
    {
        Broker { sockets: Vec::new(), handshakes: Vec::new(), next_handle: 0, stopped: false }
    }

    /// The handles of the live connections, in scan order.
    pub fn sockets(&self) -> (handles: &Vec<u64>)
        ensures
            handles@ == self@.sockets,
            self@.valid(),
    {
        proof {
            use_type_invariant(self);
        }
        &self.sockets
    }

    /// The handles of the connections whose handshake is unfinished.
    pub fn handshakes(&self) -> (handles: &Vec<u64>)
        ensures
            handles@ == self@.handshakes,
            self@.valid(),
    {
        proof {
            use_type_invariant(self);
        }
        &self.handshakes
    }

    /// Whether the worker has ended.
    pub fn is_stopped(&self) -> (stopped: bool)
        ensures
            stopped == self@.stopped,
    {
        self.stopped
    }

    /// Starts a tick: looks at the stop signal. Answers whether the tick goes
    /// on; where it does not, the worker ends and every connection is dropped.
    pub fn begin_tick(&mut self, stop_requested: bool) -> (go_on: bool)
        ensures
            final(self)@ == old(self)@.after_begin_tick(stop_requested),
            go_on == !final(self)@.stopped,
            final(self)@.valid(),
    {
        proof {
            use_type_invariant(&*self);
        }
        if stop_requested || self.stopped {
            self.sockets = Vec::new();
            self.handshakes = Vec::new();
            self.stopped = true;
            false
        } else {
            true
        }
    }

    /// Takes in the outcome of trying to accept one new connection, and decides
    /// what becomes of the candidate.
    pub fn accept(&mut self, outcome: AcceptOutcome) -> (decision: AcceptDecision)
        ensures
            decision == old(self)@.accept_decision(outcome),
            final(self)@ == old(self)@.after_accept(outcome),
            final(self)@.valid(),
    {
        proof {
            use_type_invariant(&*self);
            lemma_accept_keeps_valid(self@, outcome);
        }
        if self.stopped {
            assert(self@.sockets =~= Seq::empty());
            assert(self@.handshakes =~= Seq::empty());
            return AcceptDecision::Shutdown;
        }
        match outcome {
            AcceptOutcome::Exhausted => {
                self.sockets = Vec::new();
                self.handshakes = Vec::new();
                self.stopped = true;
                AcceptDecision::Shutdown
            },
            AcceptOutcome::WouldBlock => AcceptDecision::Continue,
            AcceptOutcome::Failed => AcceptDecision::Continue,
            AcceptOutcome::Incoming(HandshakeOutcome::Failed) => AcceptDecision::Discard,
            AcceptOutcome::Incoming(HandshakeOutcome::Established) => {
                if self.next_handle == u64::MAX {
                    return AcceptDecision::Discard;
                }
                let handle = self.next_handle;
                self.next_handle = handle + 1;
                let mut sockets: Vec<u64> = Vec::new();
                std::mem::swap(&mut sockets, &mut self.sockets);
                sockets.push(handle);
                self.sockets = sockets;
                AcceptDecision::Admit(handle)
            },
            AcceptOutcome::Incoming(HandshakeOutcome::Interrupted) => {
                if self.next_handle == u64::MAX {
                    return AcceptDecision::Discard;
                }
                let handle = self.next_handle;
                self.next_handle = handle + 1;
                let mut handshakes: Vec<u64> = Vec::new();
                std::mem::swap(&mut handshakes, &mut self.handshakes);
                handshakes.push(handle);
                self.handshakes = handshakes;
                AcceptDecision::Retry(handle)
            },
        }
    }

    /// Takes in the outcomes of resuming the unfinished handshakes, one for
    /// each handle of [`Broker::handshakes`] in order. Returns the handles of
    /// the connections to drop.
    pub fn resume_handshakes(&mut self, outcomes: &Vec<HandshakeOutcome>) -> (discarded: Vec<u64>)
        ensures
            final(self)@ == old(self)@.after_handshakes(outcomes@),
            discarded@ == marked(
                old(self)@.handshakes,
                handshake_marks(outcomes@, HandshakeOutcome::Failed),
                true,
            ),
            final(self)@.valid(),
    {
        proof {
            use_type_invariant(&*self);
            lemma_handshakes_keep_valid(self@, outcomes@);
        }
        let established = mark_handshakes(outcomes, HandshakeOutcome::Established);
        let failed = mark_handshakes(outcomes, HandshakeOutcome::Failed);
        let settled = mark_settled(outcomes);
        let (_, mut joined) = split_marked(&self.handshakes, &established);
        let (_, discarded) = split_marked(&self.handshakes, &failed);
        let (pending, _) = split_marked(&self.handshakes, &settled);
        proof {
            lemma_marked_no_duplicates(self.handshakes@, settled@, false);
            lemma_marked_within(self.handshakes@, settled@, false);
        }
        self.handshakes = pending;
        let mut sockets: Vec<u64> = Vec::new();
        std::mem::swap(&mut sockets, &mut self.sockets);
        sockets.append(&mut joined);
        self.sockets = sockets;
        discarded
    }

    /// Takes in the outcomes of reading at most one message from every live
    /// connection, one for each handle of [`Broker::sockets`] in order.
    ///
    /// Every text message that decodes as a command goes into the channel, in
    /// the order of the connections. A text message that does not is dropped:
    /// its connection stays, and so does the broker. A connection leaves on a
    /// close or a transport error, and on nothing else. Returns the handles of
    /// the connections that left.
    pub fn read_from_all_sockets(
        &mut self,
        outcomes: &Vec<ReadOutcome>,
        channel: &mut UpdaterChannel<Command, Update>,
    ) -> (closed: Vec<u64>)
        ensures
            final(self)@ == old(self)@.after_reads(outcomes@),
            closed@ == marked(old(self)@.sockets, read_marks(outcomes@), true),
            final(self)@.valid(),
            final(channel).outbound() == old(channel).outbound(),
            command_views(final(channel).inbound()) == command_views(old(channel).inbound())
                + forwarded(outcomes@.take(served(old(self)@, outcomes@))),
    {
        proof {
            use_type_invariant(&*self);
            lemma_reads_keep_valid(self@, outcomes@);
        }
        let count = if self.sockets.len() <= outcomes.len() {
            self.sockets.len()
        } else {
            outcomes.len()
        };
        let mut marks: Vec<bool> = Vec::new();
        let mut i: usize = 0;
        assert(outcomes@.take(0) =~= Seq::<ReadOutcome>::empty());
        assert(command_views(channel.inbound()) + forwarded(outcomes@.take(0)) =~= command_views(
            channel.inbound(),
        ));
        while i < count
            invariant
                i <= count <= outcomes.len(),
                marks@.len() == i,
                forall|k: int| 0 <= k < i ==> marks@[k] == read_closes(outcomes@[k]),
                channel.outbound() == old(channel).outbound(),
                command_views(channel.inbound()) == command_views(old(channel).inbound())
                    + forwarded(outcomes@.take(i as int)),
            decreases count - i,
        {
            let ghost before = channel.inbound();
            assert(outcomes@.take(i + 1).drop_last() =~= outcomes@.take(i as int));
            assert(outcomes@.take(i + 1).last() == outcomes@[i as int]);
            match &outcomes[i] {
                ReadOutcome::Text(text) => {
                    match decode_command(text.as_str()) {
                        Ok(command) => {
                            channel.deliver(command);
                            assert(command_views(channel.inbound()) =~= command_views(before).push(
                                command@,
                            ));
                        },
                        Err(_) => {},
                    }
                    marks.push(false);
                },
                ReadOutcome::Closed => {
                    marks.push(true);
                },
                ReadOutcome::Failed => {
                    marks.push(true);
                },
                _ => {
                    marks.push(false);
                },
            }
            assert(command_views(channel.inbound()) =~= command_views(old(channel).inbound())
                + forwarded(outcomes@.take(i + 1)));
            i += 1;
        }
        proof {
            lemma_marked_agree(self.sockets@, marks@, read_marks(outcomes@), false);
            lemma_marked_agree(self.sockets@, marks@, read_marks(outcomes@), true);
        }
        let (kept, closed) = split_marked(&self.sockets, &marks);
        self.sockets = kept;
        closed
    }

    /// Takes the next pending update from the channel, if there is one, and
    /// plans its broadcast: the update's wire text, for every live connection.
    ///
    /// The update is taken whether or not anyone is connected.
    pub fn next_broadcast(&self, channel: &mut UpdaterChannel<Command, Update>) -> (broadcast: Option<
        Broadcast,
    >)
        ensures
            final(channel).inbound() == old(channel).inbound(),
            self@.valid(),
            match broadcast {
                Some(b) => {
                    &&& old(channel).outbound().len() > 0
                    &&& final(channel).outbound() == old(channel).outbound().skip(1)
                    &&& b@ == broadcast_of(self@, old(channel).outbound()[0]@)
                },
                None => {
                    &&& old(channel).outbound().len() == 0
                    &&& final(channel).outbound() == old(channel).outbound()
                },
            },
    {
        proof {
            use_type_invariant(self);
        }
        match channel.take() {
            Some(update) => {
                let payload = encode_update(&update);
                let targets = self.sockets.clone();
                assert(targets@ =~= self.sockets@);
                Some(Broadcast { payload, targets })
            },
            None => None,
        }
    }

    /// Takes in the outcomes of writing one message to every live connection,
    /// one for each handle of [`Broker::sockets`] in order. A connection leaves
    /// on a close or a transport error, and on nothing else. Returns the
    /// handles of the connections that left.
    pub fn write_to_all_sockets(&mut self, outcomes: &Vec<WriteOutcome>) -> (closed: Vec<u64>)
        ensures
            final(self)@ == old(self)@.after_writes(outcomes@),
            closed@ == marked(old(self)@.sockets, write_marks(outcomes@), true),
            final(self)@.valid(),
    {
        proof {
            use_type_invariant(&*self);
            lemma_writes_keep_valid(self@, outcomes@);
        }
        let marks = mark_writes(outcomes);
        let (kept, closed) = split_marked(&self.sockets, &marks);
        self.sockets = kept;
        closed
    }
}

/// Splits handles by their marks: those unmarked, then those marked.
fn split_marked(handles: &Vec<u64>, marks: &Vec<bool>) -> (parts: (Vec<u64>, Vec<u64>))
    ensures
        parts.0@ == marked(handles@, marks@, false),
        parts.1@ == marked(handles@, marks@, true),
{
    let mut unmarked: Vec<u64> = Vec::new();
    let mut chosen: Vec<u64> = Vec::new();
    let mut i: usize = 0;
    while i < handles.len()
        invariant
            i <= handles.len(),
            unmarked@ == marked(handles@.take(i as int), marks@, false),
            chosen@ == marked(handles@.take(i as int), marks@, true),
        decreases handles.len() - i,
    {
        assert(handles@.take(i + 1).drop_last() =~= handles@.take(i as int));
        if i < marks.len() && marks[i] {
            chosen.push(handles[i]);
        } else {
            unmarked.push(handles[i]);
        }
        i += 1;
    }
    assert(handles@.take(i as int) =~= handles@);
    (unmarked, chosen)
}

/// Marks the handshake outcomes that are `which`.
fn mark_handshakes(outcomes: &Vec<HandshakeOutcome>, which: HandshakeOutcome) -> (marks: Vec<bool>)
    ensures
        marks@ == handshake_marks(outcomes@, which),
{
    let mut marks: Vec<bool> = Vec::new();
    let mut i: usize = 0;
    while i < outcomes.len()
        invariant
            i <= outcomes.len(),
            marks@.len() == i,
            forall|k: int| 0 <= k < i ==> marks@[k] == (outcomes@[k] == which),
        decreases outcomes.len() - i,
    {
        marks.push(outcomes[i] == which);
        i += 1;
    }
    assert(marks@ =~= handshake_marks(outcomes@, which));
    marks
}

/// Marks the handshake outcomes that end the handshake.
fn mark_settled(outcomes: &Vec<HandshakeOutcome>) -> (marks: Vec<bool>)
    ensures
        marks@ == settled_marks(outcomes@),
{
    let mut marks: Vec<bool> = Vec::new();
    let mut i: usize = 0;
    while i < outcomes.len()
        invariant
            i <= outcomes.len(),
            marks@.len() == i,
            forall|k: int| 0 <= k < i ==> marks@[k] == (outcomes@[k] != HandshakeOutcome::Interrupted),
        decreases outcomes.len() - i,
    {
        marks.push(outcomes[i] != HandshakeOutcome::Interrupted);
        i += 1;
    }
    assert(marks@ =~= settled_marks(outcomes@));
    marks
}

/// Marks the write outcomes that end their connection.
fn mark_writes(outcomes: &Vec<WriteOutcome>) -> (marks: Vec<bool>)
    ensures
        marks@ == write_marks(outcomes@),
{
    let mut marks: Vec<bool> = Vec::new();
    let mut i: usize = 0;
    while i < outcomes.len()
        invariant
            i <= outcomes.len(),
            marks@.len() == i,
            forall|k: int| 0 <= k < i ==> marks@[k] == write_closes(outcomes@[k]),
        decreases outcomes.len() - i,
    {
        let closes = match outcomes[i] {
            WriteOutcome::Closed => true,
            WriteOutcome::Failed => true,
            _ => false,
        };
        marks.push(closes);
        i += 1;
    }
    assert(marks@ =~= write_marks(outcomes@));
    marks
}

/// A handle is among the chosen ones exactly if it stands at a position whose
/// mark is the wanted one.
pub proof fn lemma_marked_contains(handles: Seq<u64>, marks: Seq<bool>, wanted: bool, handle: u64)
    ensures
        marked(handles, marks, wanted).contains(handle) <==> exists|i: int|
            0 <= i < handles.len() && #[trigger] handles[i] == handle && mark_at(marks, i)
                == wanted,
    decreases handles.len(),
{
    let chosen = marked(handles, marks, wanted);
    if handles.len() == 0 {
        assert(!chosen.contains(handle));
    } else {
        let n = handles.len() - 1;
        let front = handles.drop_last();
        let head = marked(front, marks, wanted);
        lemma_marked_contains(front, marks, wanted, handle);
        if chosen.contains(handle) {
            let k = choose|k: int| 0 <= k < chosen.len() && chosen[k] == handle;
            if mark_at(marks, n) == wanted && k == head.len() {
                assert(handles[n] == handle);
            } else {
                assert(head[k] == handle);
                assert(head.contains(handle));
                let i = choose|i: int|
                    0 <= i < front.len() && #[trigger] front[i] == handle && mark_at(marks, i)
                        == wanted;
                assert(handles[i] == handle);
            }
        }
        if exists|i: int|
            0 <= i < handles.len() && #[trigger] handles[i] == handle && mark_at(marks, i)
                == wanted {
            let i = choose|i: int|
                0 <= i < handles.len() && #[trigger] handles[i] == handle && mark_at(marks, i)
                    == wanted;
            if i == n {
                assert(chosen[head.len() as int] == handle);
            } else {
                assert(front[i] == handle);
                assert(head.contains(handle));
                let k = choose|k: int| 0 <= k < head.len() && head[k] == handle;
                assert(chosen[k] == handle);
            }
        }
    }
}

/// Choosing among handles of which none occurs twice gives handles of which
/// none occurs twice.
pub proof fn lemma_marked_no_duplicates(handles: Seq<u64>, marks: Seq<bool>, wanted: bool)
    requires
        handles.no_duplicates(),
    ensures
        marked(handles, marks, wanted).no_duplicates(),
        marked(handles, marks, wanted).len() <= handles.len(),
    decreases handles.len(),
{
    if handles.len() > 0 {
        let n = handles.len() - 1;
        let front = handles.drop_last();
        let head = marked(front, marks, wanted);
        lemma_marked_no_duplicates(front, marks, wanted);
        if mark_at(marks, n) == wanted {
            assert forall|k: int| 0 <= k < head.len() implies head[k] != handles[n] by {
                lemma_marked_contains(front, marks, wanted, head[k]);
                assert(head.contains(head[k]));
            }
        }
    }
}

/// What is chosen depends on the marks of the handles' positions alone.
pub proof fn lemma_marked_agree(handles: Seq<u64>, first: Seq<bool>, second: Seq<bool>, wanted: bool)
    requires
        forall|i: int| 0 <= i < handles.len() ==> mark_at(first, i) == mark_at(second, i),
    ensures
        marked(handles, first, wanted) == marked(handles, second, wanted),
    decreases handles.len(),
{
    if handles.len() > 0 {
        lemma_marked_agree(handles.drop_last(), first, second, wanted);
    }
}

/// Every handle that is chosen is one of the handles.
proof fn lemma_marked_within(handles: Seq<u64>, marks: Seq<bool>, wanted: bool)
    ensures
        forall|k: int|
            0 <= k < marked(handles, marks, wanted).len() ==> handles.contains(
                #[trigger] marked(handles, marks, wanted)[k],
            ),
{
    let chosen = marked(handles, marks, wanted);
    assert forall|k: int| 0 <= k < chosen.len() implies handles.contains(#[trigger] chosen[k]) by {
        lemma_marked_contains(handles, marks, wanted, chosen[k]);
        assert(chosen.contains(chosen[k]));
    }
}

/// Reading keeps a valid state valid.
pub proof fn lemma_reads_keep_valid(state: BrokerView, outcomes: Seq<ReadOutcome>)
    requires
        state.valid(),
    ensures
        state.after_reads(outcomes).valid(),
{
    lemma_marked_no_duplicates(state.sockets, read_marks(outcomes), false);
    lemma_marked_within(state.sockets, read_marks(outcomes), false);
}

/// Writing keeps a valid state valid.
pub proof fn lemma_writes_keep_valid(state: BrokerView, outcomes: Seq<WriteOutcome>)
    requires
        state.valid(),
    ensures
        state.after_writes(outcomes).valid(),
{
    lemma_marked_no_duplicates(state.sockets, write_marks(outcomes), false);
    lemma_marked_within(state.sockets, write_marks(outcomes), false);
}

/// Resuming handshakes keeps a valid state valid.
pub proof fn lemma_handshakes_keep_valid(state: BrokerView, outcomes: Seq<HandshakeOutcome>)
    requires
        state.valid(),
    ensures
        state.after_handshakes(outcomes).valid(),
{
    let established = handshake_marks(outcomes, HandshakeOutcome::Established);
    let settled = settled_marks(outcomes);
    let joined = marked(state.handshakes, established, true);
    let pending = marked(state.handshakes, settled, false);
    let after = state.after_handshakes(outcomes);
    lemma_marked_no_duplicates(state.handshakes, established, true);
    lemma_marked_no_duplicates(state.handshakes, settled, false);
    lemma_marked_within(state.handshakes, established, true);
    lemma_marked_within(state.handshakes, settled, false);
    assert forall|i: int, j: int|
        0 <= i < after.sockets.len() && 0 <= j < after.handshakes.len() implies after.sockets[i]
        != after.handshakes[j] by {
        lemma_marked_contains(state.handshakes, settled, false, pending[j]);
        assert(pending.contains(pending[j]));
        if i >= state.sockets.len() {
            let handle = joined[i - state.sockets.len()];
            lemma_marked_contains(state.handshakes, established, true, handle);
            assert(joined.contains(handle));
        }
    }
    assert forall|i: int, j: int|
        0 <= i < after.sockets.len() && 0 <= j < after.sockets.len() && i != j implies after.sockets[i]
        != after.sockets[j] by {
        if i >= state.sockets.len() {
            assert(state.handshakes.contains(joined[i - state.sockets.len()]));
        }
        if j >= state.sockets.len() {
            assert(state.handshakes.contains(joined[j - state.sockets.len()]));
        }
    }
    assert forall|i: int| 0 <= i < after.sockets.len() implies #[trigger] after.sockets[i]
        < after.next_handle by {
        if i >= state.sockets.len() {
            assert(state.handshakes.contains(joined[i - state.sockets.len()]));
        }
    }
}

/// Accepting keeps a valid state valid.
pub proof fn lemma_accept_keeps_valid(state: BrokerView, outcome: AcceptOutcome)
    requires
        state.valid(),
    ensures
        state.after_accept(outcome).valid(),
{
}

/// The broadcasts of a run of updates, each from the state in which it was
/// taken from the channel.
pub open spec fn broadcasts(states: Seq<BrokerView>, updates: Seq<UpdateView>) -> Seq<
    BroadcastView,
> {
    Seq::new(updates.len(), |k: int| broadcast_of(states[k], updates[k]))
}

/// What writing a payload to these targets writes to one connection: the
/// payload, once for each time that the connection is among the targets.
pub open spec fn copies(targets: Seq<u64>, handle: u64, payload: Seq<char>) -> Seq<Seq<char>>
    decreases targets.len(),
{
    if targets.len() == 0 {
        Seq::empty()
    } else {
        let head = copies(targets.drop_last(), handle, payload);
        if targets.last() == handle {
            head.push(payload)
        } else {
            head
        }
    }
}

/// Everything that a run of broadcasts writes to one connection, in order.
pub open spec fn received(handle: u64, run: Seq<BroadcastView>) -> Seq<Seq<char>>
    decreases run.len(),
{
    if run.len() == 0 {
        Seq::empty()
    } else {
        received(handle, run.drop_last()) + copies(run.last().targets, handle, run.last().payload)
    }
}

/// The payloads of those broadcasts of a run that went out while a connection
/// was live, in order.
pub open spec fn sent_while_connected(handle: u64, run: Seq<BroadcastView>) -> Seq<Seq<char>>
    decreases run.len(),
{
    if run.len() == 0 {
        Seq::empty()
    } else {
        let head = sent_while_connected(handle, run.drop_last());
        if run.last().targets.contains(handle) {
            head.push(run.last().payload)
        } else {
            head
        }
    }
}

/// Among targets of which none occurs twice, a connection gets the payload
/// once if it is a target, and not at all if it is not.
proof fn lemma_copies_of_distinct(targets: Seq<u64>, handle: u64, payload: Seq<char>)
    requires
        targets.no_duplicates(),
    ensures
        copies(targets, handle, payload) == if targets.contains(handle) {
            seq![payload]
        } else {
            Seq::empty()
        },
    decreases targets.len(),
{
    if targets.len() > 0 {
        let front = targets.drop_last();
        lemma_copies_of_distinct(front, handle, payload);
        if targets.last() == handle {
            assert(targets[targets.len() - 1] == handle);
            if front.contains(handle) {
                let k = choose|k: int| 0 <= k < front.len() && front[k] == handle;
                assert(targets[k] == handle);
            }
            assert(copies(targets, handle, payload) =~= seq![payload]);
        } else {
            if targets.contains(handle) {
                let k = choose|k: int| 0 <= k < targets.len() && targets[k] == handle;
                assert(front[k] == handle);
            }
            if front.contains(handle) {
                let k = choose|k: int| 0 <= k < front.len() && front[k] == handle;
                assert(targets[k] == handle);
            }
        }
    }
}

/// A client receives exactly the updates that were sent while it was
/// connected, in the order in which they were sent, each once.
///
/// `states[k]` is the broker's state when `updates[k]` was taken from the
/// channel. What the broadcasts write to the connection `handle` is the wire
/// text of every update during which the connection was live, in order and
/// without repetition; for a connection that was live throughout, that is the
/// text of every update.
pub proof fn lemma_client_receives_what_was_sent(
    handle: u64,
    states: Seq<BrokerView>,
    updates: Seq<UpdateView>,
)
    requires
        states.len() == updates.len(),
        forall|k: int| 0 <= k < states.len() ==> (#[trigger] states[k]).valid(),
    ensures
        received(handle, broadcasts(states, updates)) == sent_while_connected(
            handle,
            broadcasts(states, updates),
        ),
        (forall|k: int| 0 <= k < states.len() ==> (#[trigger] states[k]).sockets.contains(handle))
            ==> received(handle, broadcasts(states, updates)) == Seq::new(
            updates.len(),
            |k: int| update_text(updates[k]),
        ),
    decreases updates.len(),
{
    let run = broadcasts(states, updates);
    if updates.len() == 0 {
        assert(received(handle, run) =~= Seq::new(updates.len(), |k: int| update_text(updates[k])));
    } else {
        let front_states = states.drop_last();
        let front_updates = updates.drop_last();
        lemma_client_receives_what_was_sent(handle, front_states, front_updates);
        assert(run.drop_last() =~= broadcasts(front_states, front_updates));
        let last = run.last();
        assert(last == broadcast_of(states[states.len() - 1], updates[updates.len() - 1]));
        assert(states[states.len() - 1].valid());
        lemma_copies_of_distinct(last.targets, handle, last.payload);
        if last.targets.contains(handle) {
            assert(received(handle, run) =~= received(handle, run.drop_last()).push(last.payload));
        } else {
            assert(received(handle, run) =~= received(handle, run.drop_last()));
        }
        if forall|k: int| 0 <= k < states.len() ==> (#[trigger] states[k]).sockets.contains(handle) {
            assert forall|k: int| 0 <= k < front_states.len() implies (
            #[trigger] front_states[k]).sockets.contains(handle) by {
                assert(states[k].sockets.contains(handle));
            }
            assert(received(handle, run) =~= Seq::new(
                updates.len(),
                |k: int| update_text(updates[k]),
            ));
        }
    }
}

/// A text message that decodes as a command is among the commands forwarded.
proof fn lemma_forwarded_contains(outcomes: Seq<ReadOutcome>, j: int)
    requires
        0 <= j < outcomes.len(),
        outcomes[j] is Text,
        decoded_command(outcomes[j]->Text_0@) is Ok,
    ensures
        forwarded(outcomes).contains(decoded_command(outcomes[j]->Text_0@)->Ok_0),
    decreases outcomes.len(),
{
    let command = decoded_command(outcomes[j]->Text_0@)->Ok_0;
    let head = forwarded(outcomes.drop_last());
    let all = forwarded(outcomes);
    if j == outcomes.len() - 1 {
        assert(all == head.push(command));
        assert(all[head.len() as int] == command);
    } else {
        lemma_forwarded_contains(outcomes.drop_last(), j);
        let k = choose|k: int| 0 <= k < head.len() && head[k] == command;
        assert(all[k] == command);
    }
}

/// A malformed payload never disconnects its sender and never stops the
/// broker, and the next valid message of the same client is processed.
///
/// Connection `i` sends a text that is no command. The read phase forwards
/// nothing for it, keeps the connection and leaves the worker as it was. When
/// the same connection then sends a text that is a command, that command is
/// forwarded.
pub proof fn lemma_malformed_payload_is_dropped(
    state: BrokerView,
    first: Seq<ReadOutcome>,
    second: Seq<ReadOutcome>,
    i: int,
)
    requires
        state.valid(),
        0 <= i < state.sockets.len(),
        i < first.len(),
        first[i] is Text,
        decoded_command(first[i]->Text_0@) is Err,
    ensures
        forwarded(first.take(i + 1)) == forwarded(first.take(i)),
        state.after_reads(first).sockets.contains(state.sockets[i]),
        state.after_reads(first).stopped == state.stopped,
        forall|j: int|
            0 <= j < state.after_reads(first).sockets.len() && j < second.len()
                && state.after_reads(first).sockets[j] == state.sockets[i] && (
            #[trigger] second[j]) is Text && decoded_command(second[j]->Text_0@) is Ok
                ==> forwarded(second.take(served(state.after_reads(first), second))).contains(
                decoded_command(second[j]->Text_0@)->Ok_0,
            ),
{
    assert(first.take(i + 1).drop_last() =~= first.take(i));
    assert(first.take(i + 1).last() == first[i]);
    lemma_marked_contains(state.sockets, read_marks(first), false, state.sockets[i]);
    let next = state.after_reads(first);
    assert forall|j: int|
        0 <= j < next.sockets.len() && j < second.len() && next.sockets[j] == state.sockets[i] && (
        #[trigger] second[j]) is Text && decoded_command(second[j]->Text_0@) is Ok implies forwarded(
        second.take(served(next, second)),
    ).contains(decoded_command(second[j]->Text_0@)->Ok_0) by {
        let taken = second.take(served(next, second));
        assert(taken[j] == second[j]);
        lemma_forwarded_contains(taken, j);
    }
}

/// Once a stop was requested, the broker accepts nothing: the tick that sees
/// the request ends the worker and drops every connection, and from then on
/// every accept is answered by a shutdown and admits no one.
pub proof fn lemma_stopped_broker_accepts_nothing(state: BrokerView, outcome: AcceptOutcome)
    requires
        state.valid(),
    ensures
        state.after_begin_tick(true).stopped,
        state.after_begin_tick(true).sockets.len() == 0,
        state.after_begin_tick(true).accept_decision(outcome) == AcceptDecision::Shutdown,
        state.after_begin_tick(true).after_accept(outcome) == state.after_begin_tick(true),
{
}

} // verus!
