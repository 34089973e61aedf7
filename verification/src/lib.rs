//! Command relay between network clients and one line-oriented serial device.
//!
//! Producers hand in lines of text; the relay checks them, keeps them in
//! arrival order and lets a single consumer pass them to the device one at a
//! time, as long as the run state allows it.

pub mod acquire;
pub mod command;
pub mod dispatch;
pub mod fault;
pub mod intake;
pub mod model;
pub mod queue;
pub mod run_state;
pub mod transceiver;
