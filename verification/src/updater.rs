//! The lifecycle of an updater.
//!
//! An updater is a self-contained unit that runs beside its user and talks to
//! it through an [`UpdaterChannel`]. It is a machine of two states, stopped
//! and running: `start` makes the channel and takes it to running, `stop`
//! takes it back. The worker itself, a thread or a task, is the caller's: the
//! caller binds the listener before `start` and reports how that went, spawns
//! the worker after it, and before `stop` signals and joins the worker if and
//! only if the updater is running, and reports how the worker ended.

use vstd::prelude::*;
use std::collections::VecDeque;
use crate::channel::UpdaterChannel;
use crate::message::{Command, Update};

verus! {

/// Why the listener could not be bound.
#[derive(Clone, Copy, Debug, PartialEq, Eq, Structural)]
pub enum BindError {
    /// The listening address is not a `host:port` that can be understood.
    Unparsable,
    /// The address cannot be listened on.
    Unavailable,
}

/// How a worker ended, as joining it tells.
#[derive(Clone, Copy, Debug, PartialEq, Eq, Structural)]
pub enum WorkerExit {
    /// The worker returned.
    Finished,
    /// The worker ended abnormally.
    Panicked,
}

/// Something that can be started and stopped, and that exchanges messages of
/// two types with its user while it runs.
pub trait Updater {
    /// What the user receives.
    type Inbound;

    /// What the user sends.
    type Outbound;

    /// Whether a worker is alive.
    spec fn is_running(&self) -> bool;

    /// Starts the updater, given how binding its listener went.
    ///
    /// Where the listener is bound, the updater runs from now on and the
    /// channel to it comes back, empty. Where it is not, the error comes back
    /// and the updater stays stopped. Must not be called on a running updater.
    fn start(&mut self, bound: Result<(), BindError>) -> (channel: Result<
        UpdaterChannel<Self::Inbound, Self::Outbound>,
        BindError,
    >)
        requires
            !old(self).is_running(),
        ensures
            final(self).is_running() == (bound is Ok),
            match channel {
                Ok(c) => bound is Ok && c.inbound() == Seq::<Self::Inbound>::empty()
                    && c.outbound() == Seq::<Self::Outbound>::empty(),
                Err(e) => bound == Err::<(), BindError>(e),
            },
    ;

    /// Stops the updater, given how its worker ended: `None` where there was
    /// no worker to join.
    ///
    /// Fails exactly where the updater was running and its worker ended
    /// abnormally. Stopping a stopped updater succeeds and changes nothing.
    fn stop(&mut self, exit: Option<WorkerExit>) -> (result: Result<(), ()>)
        ensures
            !final(self).is_running(),
            result is Err <==> old(self).is_running() && exit == Some(WorkerExit::Panicked),
    ;
}

/// An updater that serves its viewers over websockets.
pub struct WebsocketUpdater {
    connection_string: String,
    running: bool,
}

impl WebsocketUpdater {
    /// The address to listen on, as it was given.
    pub closed spec fn address(&self) -> Seq<char> {
        self.connection_string@
    }

    /// A stopped updater for a listening address, `host:port`.
    pub fn new(connection_string: String) -> (updater: WebsocketUpdater)
        ensures
            !updater.is_running(),
            updater.address() == connection_string@,
    {
        WebsocketUpdater { connection_string, running: false }
    }

    /// The address to listen on.
    pub fn connection_string(&self) -> (address: &String)
        ensures
            address@ == self.address(),
    {
        &self.connection_string
    }

    /// Whether a worker is alive: whether `stop` has a worker to signal and to
    /// wait for.
    pub fn running(&self) -> (running: bool)
        ensures
            running == self.is_running(),
    {
        self.running
    }
}

impl Updater for WebsocketUpdater {
    type Inbound = Command;

    type Outbound = Update;

    closed spec fn is_running(&self) -> bool {
        self.running
    }

    fn start(&mut self, bound: Result<(), BindError>) -> (channel: Result<
        UpdaterChannel<Command, Update>,
        BindError,
    >)
        ensures
            final(self).address() == old(self).address(),
    {
        match bound {
            Ok(()) => {
                self.running = true;
                Ok(UpdaterChannel::new(VecDeque::new(), VecDeque::new()))
            },
            Err(error) => Err(error),
        }
    }

    fn stop(&mut self, exit: Option<WorkerExit>) -> (result: Result<(), ()>)
        ensures
            final(self).address() == old(self).address(),
    {
        let was_running = self.running;
        self.running = false;
        match exit {
            Some(WorkerExit::Panicked) => if was_running {
                Err(())
            } else {
                Ok(())
            },
            _ => Ok(()),
        }
    }
}

} // verus!
