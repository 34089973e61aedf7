//! The run-state flag that gates dispatch, and the token that wakes the
//! dispatcher.

use crate::dispatch::DispatchPhase;
use crate::model::{lemma_announce_is_a_step, relay_state, step, tokens_in, Event};
use vstd::prelude::*;

verus! {

/// Whether queued commands may be handed to the device.
#[derive(Clone, Copy, Debug, PartialEq, Eq, Structural)]
pub enum RunState {
    Running,
    Paused,
}

/// What a producer puts in the dispatcher's mailbox. It carries no payload:
/// it only asks the dispatcher to look at the queue again.
#[derive(Clone, Copy, Debug, PartialEq, Eq, Structural)]
pub enum ControlMessage {
    CheckBuffer,
}

/// The wake token owed after a command was appended while the relay was in
/// state `state`: one while running, none while paused.
pub open spec fn wake_after_enqueue(state: RunState) -> Option<ControlMessage> {
    match state {
        RunState::Running => Some(ControlMessage::CheckBuffer),
        RunState::Paused => None,
    }
}

/// Holder of the run state. It starts out `Running` and lives as long as the
/// relay does; `pause` and `resume` are its only transitions.
#[derive(Debug)]
pub struct RunStateController {
    state: RunState,
}

impl View for RunStateController {
    type V = RunState;

    closed spec fn view(&self) -> RunState {
        self.state
    }
}

impl RunStateController {
    /// A controller in the initial state.
    pub fn new() -> (c: Self)
        ensures
            c@ == RunState::Running,
    {
        RunStateController { state: RunState::Running }
    }

    /// Stops dispatch. Nobody has to be told: stopping needs no wake.
    pub fn pause(&mut self)
        ensures
            final(self)@ == RunState::Paused,
    {
        self.state = RunState::Paused;
    }

    /// Lets dispatch go on, and hands back the wake token that the caller
    /// owes the dispatcher, since commands may have piled up meanwhile.
    pub fn resume(&mut self) -> (wake: ControlMessage)
        ensures
            final(self)@ == RunState::Running,
            wake == ControlMessage::CheckBuffer,
    {
        self.state = RunState::Running;
        ControlMessage::CheckBuffer
    }

    /// The state as it stands now.
    pub fn current(&self) -> (s: RunState)
        ensures
            s == self@,
    {
        self.state
    }

    /// The wake token, if any, that is owed after a command was appended.
    /// For a caller that has appended one this is the step `Announce` of
    /// the relay.
    pub fn wake_on_enqueue(&self) -> (wake: Option<ControlMessage>)
        ensures
            wake == wake_after_enqueue(self@),
            forall|queue: Seq<Seq<char>>, phase: DispatchPhase, pending: nat, unannounced: nat|
                unannounced > 0 ==> #[trigger] step(
                    relay_state(queue, self@, phase, pending, unannounced),
                    Event::Announce,
                ) == relay_state(
                    queue,
                    self@,
                    phase,
                    pending + tokens_in(wake),
                    (unannounced - 1) as nat,
                ),
    {
        let wake = match self.state {
            RunState::Running => Some(ControlMessage::CheckBuffer),
            RunState::Paused => None,
        };
        proof {
            assert forall|
                queue: Seq<Seq<char>>,
                phase: DispatchPhase,
                pending: nat,
                unannounced: nat,
            |
                unannounced > 0 implies #[trigger] step(
                    relay_state(queue, self@, phase, pending, unannounced),
                    Event::Announce,
                ) == relay_state(
                    queue,
                    self@,
                    phase,
                    pending + tokens_in(wake),
                    (unannounced - 1) as nat,
                ) by {
                lemma_announce_is_a_step(
                    relay_state(queue, self@, phase, pending, unannounced),
                    wake,
                );
            }
        }
        wake
    }
}

} // verus!
