//! The dispatch loop's decisions.
//!
//! One consumer owns the device. It sleeps until a wake token arrives, then
//! drains the queue, one full exchange with the device per command, until the
//! queue is empty or the relay is paused. The waiting and the exchange are
//! the caller's; which of the two comes next is decided here.

use crate::command::{is_well_formed, Command};
use crate::model::{
    lemma_next_action_is_a_step, lemma_wake_is_a_step, relay_state, sent_by, step, Event,
};
use crate::queue::CommandQueue;
use crate::run_state::{ControlMessage, RunState, RunStateController};
use vstd::prelude::*;

verus! {

/// Where the consumer stands in its loop.
#[derive(Clone, Copy, Debug, PartialEq, Eq, Structural)]
pub enum DispatchPhase {
    /// Blocked on the mailbox; nothing is sent before a token arrives.
    Waiting,
    /// Woken, and working through the queue.
    Draining,
}

/// What the consumer has to do next.
#[derive(Debug, PartialEq, Eq)]
pub enum DispatchAction {
    /// Block until the next wake token, then call `on_wake`.
    AwaitWake,
    /// Send this command, wait for the device's response line, then ask
    /// again.
    Send(Command),
}

/// The command that a round of the drain loop takes out, if it takes one:
/// the head of the queue, provided that the consumer is draining, the relay
/// is running and the queue is not empty.
pub open spec fn dispatch_target(
    phase: DispatchPhase,
    state: RunState,
    queue: Seq<Seq<char>>,
) -> Option<Seq<char>> {
    if phase == DispatchPhase::Draining && state == RunState::Running && queue.len() > 0 {
        Some(queue[0])
    } else {
        None
    }
}

/// The text of the command that an action hands over for sending, if it
/// hands one over.
pub open spec fn handed_over(action: DispatchAction) -> Option<Seq<char>> {
    match action {
        DispatchAction::Send(command) => Some(command@),
        DispatchAction::AwaitWake => None,
    }
}

/// The consumer's own state.
#[derive(Debug)]
pub struct Dispatcher {
    phase: DispatchPhase,
}

impl View for Dispatcher {
    type V = DispatchPhase;

    closed spec fn view(&self) -> DispatchPhase {
        self.phase
    }
}

impl Dispatcher {
    /// A consumer that waits for its first wake token.
    pub fn new() -> (d: Self)
        ensures
            d@ == DispatchPhase::Waiting,
    {
        Dispatcher { phase: DispatchPhase::Waiting }
    }

    /// Where the consumer stands.
    pub fn phase(&self) -> (p: DispatchPhase)
        ensures
            p == self@,
    {
        self.phase
    }

    /// Takes note of a wake token. Tokens carry nothing and do not add up:
    /// any number of them starts one drain. For a consumer that was blocked
    /// this is the step `Wake` of the relay, which takes one token out of
    /// the mailbox.
    pub fn on_wake(&mut self, token: ControlMessage)
        ensures
            final(self)@ == DispatchPhase::Draining,
            old(self)@ == DispatchPhase::Waiting ==> forall|
                queue: Seq<Seq<char>>,
                run_state: RunState,
                pending: nat,
                unannounced: nat,
            |
                pending > 0 ==> #[trigger] step(
                    relay_state(queue, run_state, old(self)@, pending, unannounced),
                    Event::Wake,
                ) == relay_state(
                    queue,
                    run_state,
                    final(self)@,
                    (pending - 1) as nat,
                    unannounced,
                ),
    {
        match token {
            ControlMessage::CheckBuffer => {
                self.phase = DispatchPhase::Draining;
            },
        }
        proof {
            if old(self)@ == DispatchPhase::Waiting {
                assert forall|
                    queue: Seq<Seq<char>>,
                    run_state: RunState,
                    pending: nat,
                    unannounced: nat,
                |
                    pending > 0 implies #[trigger] step(
                        relay_state(queue, run_state, old(self)@, pending, unannounced),
                        Event::Wake,
                    ) == relay_state(queue, run_state, self@, (pending - 1) as nat, unannounced) by {
                    lemma_wake_is_a_step(
                        relay_state(queue, run_state, old(self)@, pending, unannounced),
                        self@,
                    );
                }
            }
        }
    }

    /// One round of the drain loop, to be made with the queue and the run
    /// state held together. While draining, with the relay running and a
    /// command waiting, the head of the queue is taken out and handed over
    /// for sending. In every other case the queue stays as it is and the
    /// consumer goes back to waiting. This is the step `Step` of the relay,
    /// whatever the mailbox holds.
    pub fn next_action(&mut self, controller: &RunStateController, queue: &mut CommandQueue) -> (action:
        DispatchAction)
        ensures
            match dispatch_target(old(self)@, controller@, old(queue)@) {
                Some(text) => {
                    &&& action matches DispatchAction::Send(command)
                    &&& command@ == text
                    &&& is_well_formed(text)
                    &&& final(queue)@ == old(queue)@.drop_first()
                    &&& final(self)@ == DispatchPhase::Draining
                },
                None => {
                    &&& action == DispatchAction::AwaitWake
                    &&& final(queue)@ == old(queue)@
                    &&& final(self)@ == DispatchPhase::Waiting
                },
            },
            forall|pending: nat, unannounced: nat|
                #[trigger] step(
                    relay_state(
                        old(queue)@,
                        controller@,
                        old(self)@,
                        pending,
                        unannounced,
                    ),
                    Event::Step,
                ) == relay_state(final(queue)@, controller@, final(self)@, pending, unannounced),
            forall|pending: nat, unannounced: nat|
                #[trigger] sent_by(
                    relay_state(
                        old(queue)@,
                        controller@,
                        old(self)@,
                        pending,
                        unannounced,
                    ),
                    Event::Step,
                ) == handed_over(action),
    {
        let mut action = DispatchAction::AwaitWake;
        if self.phase == DispatchPhase::Draining && controller.current() == RunState::Running {
            match queue.dequeue_front() {
                Some(command) => {
                    action = DispatchAction::Send(command);
                },
                None => {
                    self.phase = DispatchPhase::Waiting;
                },
            }
        } else {
            self.phase = DispatchPhase::Waiting;
        }
        proof {
            assert forall|pending: nat, unannounced: nat|
                #[trigger] step(
                    relay_state(
                        old(queue)@,
                        controller@,
                        old(self)@,
                        pending,
                        unannounced,
                    ),
                    Event::Step,
                ) == relay_state(queue@, controller@, self@, pending, unannounced) && sent_by(
                    relay_state(old(queue)@, controller@, old(self)@, pending, unannounced),
                    Event::Step,
                ) == handed_over(action) by {
                lemma_next_action_is_a_step(
                    relay_state(old(queue)@, controller@, old(self)@, pending, unannounced),
                    handed_over(action),
                    queue@,
                    self@,
                );
            }
        }
        action
    }
}

} // verus!
