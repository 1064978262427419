//! A typed bridge between polled microcontroller registers and remote viewers.
//!
//! The crate holds the decision logic of the bridge: the message types and their
//! JSON wire form, the FIFO channel pair between the two halves, the connection
//! broker's per-tick bookkeeping, the worker lifecycle, and the register-watch
//! runner. Socket and hardware I/O are left to the caller, which performs the
//! operations these functions plan and reports the outcomes back.

pub mod message;
pub mod json;
pub mod wire;
pub mod channel;
pub mod broker;
pub mod runner;
pub mod session;
pub mod updater;
