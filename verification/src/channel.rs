//! The channel pair between an updater and its user.
//!
//! An [`UpdaterChannel`] joins two unbounded first-in-first-out queues: one
//! carries inbound messages from the updater to the user, the other carries
//! outbound messages from the user to the updater. `rx` and `tx` are named
//! from the user's side; `deliver` and `take` are the updater's ends.

use vstd::prelude::*;
use std::collections::VecDeque;

verus! {

/// A complete channel to an updater.
pub struct UpdaterChannel<I, O> {
    /// What the user reads from.
    rx: VecDeque<I>,
    /// What the user sends to.
    tx: VecDeque<O>,
}

impl<I, O> UpdaterChannel<I, O> {
    /// The inbound messages that the user has not received yet, oldest first.
    pub closed spec fn inbound(&self) -> Seq<I> {
        self.rx@
    }

    /// The outbound messages that the updater has not taken yet, oldest first.
    pub closed spec fn outbound(&self) -> Seq<O> {
        self.tx@
    }

    /// Joins two queues into a channel, crossing them over: the arguments are
    /// named from the updater's side, the channel's ends from the user's.
    pub fn new(rx: VecDeque<O>, tx: VecDeque<I>) -> (channel: Self)
        ensures
            channel.inbound() == tx@,
            channel.outbound() == rx@,
    {
        UpdaterChannel { rx: tx, tx: rx }
    }

    /// Receives the next inbound message, if there is one. Never waits.
    pub fn rx(&mut self) -> (message: Option<I>)
        ensures
            final(self).outbound() == old(self).outbound(),
            match message {
                Some(m) => old(self).inbound().len() > 0 && m == old(self).inbound()[0]
                    && final(self).inbound() == old(self).inbound().skip(1),
                None => old(self).inbound().len() == 0 && final(self).inbound() == old(
                    self,
                ).inbound(),
            },
    {
        let message = self.rx.pop_front();
        assert(message is Some ==> self.rx@ =~= old(self).rx@.skip(1));
        message
    }

    /// Sends an outbound message. Always succeeds; the message goes behind
    /// those sent before it.
    pub fn tx(&mut self, message: O)
        ensures
            final(self).inbound() == old(self).inbound(),
            final(self).outbound() == old(self).outbound().push(message),
    {
        self.tx.push_back(message);
    }

    /// Hands an inbound message to the user's end, behind those delivered
    /// before it.
    pub fn deliver(&mut self, message: I)
        ensures
            final(self).inbound() == old(self).inbound().push(message),
            final(self).outbound() == old(self).outbound(),
    {
        self.rx.push_back(message);
    }

    /// Takes the next outbound message, if there is one. Never waits.
    pub fn take(&mut self) -> (message: Option<O>)
        ensures
            final(self).inbound() == old(self).inbound(),
            match message {
                Some(m) => old(self).outbound().len() > 0 && m == old(self).outbound()[0]
                    && final(self).outbound() == old(self).outbound().skip(1),
                None => old(self).outbound().len() == 0 && final(self).outbound() == old(
                    self,
                ).outbound(),
            },
    {
        let message = self.tx.pop_front();
        assert(message is Some ==> self.tx@ =~= old(self).tx@.skip(1));
        message
    }
}

/// Messages leave a channel in the order in which they were sent: after
/// sending `sent` into an empty queue, one by one, taking as many messages
/// gives `sent` back, with nothing reordered, lost or repeated.
pub proof fn lemma_channel_is_fifo<O>(sent: Seq<O>)
    ensures
        drained(enqueued(Seq::<O>::empty(), sent), sent.len()) == (sent, Seq::<O>::empty()),
    decreases sent.len(),
{
    lemma_enqueued_is_concat(Seq::<O>::empty(), sent);
    assert(Seq::<O>::empty() + sent =~= sent);
    lemma_drained_is_split(sent, sent.len());
    assert(sent.take(sent.len() as int) =~= sent);
    assert(sent.skip(sent.len() as int) =~= Seq::<O>::empty());
}

/// The queue after sending `sent`, one message after the other.
pub open spec fn enqueued<O>(queue: Seq<O>, sent: Seq<O>) -> Seq<O>
    decreases sent.len(),
{
    if sent.len() == 0 {
        queue
    } else {
        enqueued(queue.push(sent[0]), sent.skip(1))
    }
}

/// The messages taken by `count` takes from a queue that holds at least as
/// many, oldest first, and the queue that is left.
pub open spec fn drained<O>(queue: Seq<O>, count: nat) -> (Seq<O>, Seq<O>)
    decreases count,
{
    if count == 0 || queue.len() == 0 {
        (Seq::empty(), queue)
    } else {
        let rest = drained(queue.skip(1), (count - 1) as nat);
        (seq![queue[0]] + rest.0, rest.1)
    }
}

proof fn lemma_enqueued_is_concat<O>(queue: Seq<O>, sent: Seq<O>)
    ensures
        enqueued(queue, sent) == queue + sent,
    decreases sent.len(),
{
    if sent.len() == 0 {
        assert(queue + sent =~= queue);
    } else {
        lemma_enqueued_is_concat(queue.push(sent[0]), sent.skip(1));
        assert(queue.push(sent[0]) + sent.skip(1) =~= queue + sent);
    }
}

proof fn lemma_drained_is_split<O>(queue: Seq<O>, count: nat)
    requires
        count <= queue.len(),
    ensures
        drained(queue, count) == (queue.take(count as int), queue.skip(count as int)),
    decreases count,
{
    if count == 0 || queue.len() == 0 {
        assert(queue.take(count as int) =~= Seq::<O>::empty());
        assert(queue.skip(count as int) =~= queue);
    } else {
        lemma_drained_is_split(queue.skip(1), (count - 1) as nat);
        assert(seq![queue[0]] + queue.skip(1).take(count - 1) =~= queue.take(count as int));
        assert(queue.skip(1).skip(count - 1) =~= queue.skip(count as int));
    }
}

} // verus!
