//! The command queue: validated commands in arrival order.

use crate::command::{is_well_formed, Command, ValidationError};
use crate::dispatch::DispatchPhase;
use crate::model::{appended, lemma_enqueue_is_a_step, relay_state, step, Event};
use crate::run_state::RunState;
use std::collections::VecDeque;
use vstd::prelude::*;

verus! {

/// Commands that wait for dispatch, oldest first. The queue has no capacity
/// limit: a paused or slow consumer lets it grow.
#[derive(Debug)]
pub struct CommandQueue {
    items: VecDeque<Command>,
}

impl View for CommandQueue {
    type V = Seq<Seq<char>>;

    /// The texts of the waiting commands, oldest first.
    closed spec fn view(&self) -> Seq<Seq<char>> {
        self.items@.map_values(|c: Command| c@)
    }
}

/// Every entry of `queue` is a well-formed command text.
pub open spec fn all_well_formed(queue: Seq<Seq<char>>) -> bool {
    forall|i: int| 0 <= i < queue.len() ==> is_well_formed(#[trigger] queue[i])
}

impl CommandQueue {
    /// An empty queue.
    pub fn new() -> (q: Self)
        ensures
            q@ == Seq::<Seq<char>>::empty(),
    {
        let q = CommandQueue { items: VecDeque::new() };
        assert(q@ =~= Seq::<Seq<char>>::empty());
        q
    }

    /// Validates `raw` and appends it at the tail. A line that is not well
    /// formed is reported and leaves the queue as it was. For a caller that
    /// looks at the run state afterwards this is the step `Enqueue` of the
    /// relay.
    pub fn enqueue(&mut self, raw: String) -> (r: Result<(), ValidationError>)
        ensures
            is_well_formed(raw@) ==> r == Ok::<(), ValidationError>(()) && final(self)@ == old(
                self,
            )@.push(raw@),
            !is_well_formed(raw@) ==> r == Err::<(), ValidationError>(
                ValidationError::InvalidCommand,
            ) && final(self)@ == old(self)@,
            forall|run_state: RunState, phase: DispatchPhase, pending: nat, unannounced: nat|
                #[trigger] step(
                    relay_state(old(self)@, run_state, phase, pending, unannounced),
                    Event::Enqueue(raw@),
                ) == relay_state(final(self)@, run_state, phase, pending, unannounced + appended(r)),
    {
        let ghost line = raw@;
        let r = match Command::parse(raw) {
            Ok(command) => {
                self.items.push_back(command);
                assert(self@ =~= old(self)@.push(line));
                Ok(())
            },
            Err(e) => Err(e),
        };
        proof {
            assert forall|run_state: RunState, phase: DispatchPhase, pending: nat, unannounced: nat|
                #[trigger] step(
                    relay_state(old(self)@, run_state, phase, pending, unannounced),
                    Event::Enqueue(line),
                ) == relay_state(self@, run_state, phase, pending, unannounced + appended(r)) by {
                lemma_enqueue_is_a_step(
                    relay_state(old(self)@, run_state, phase, pending, unannounced),
                    line,
                    r,
                    self@,
                );
            }
        }
        r
    }

    /// Removes the head and returns it; `None`, and no change, when the
    /// queue is empty.
    pub fn dequeue_front(&mut self) -> (head: Option<Command>)
        ensures
            old(self)@.len() == 0 ==> head is None && final(self)@ == old(self)@,
            old(self)@.len() > 0 ==> head is Some && head->Some_0@ == old(self)@[0]
                && is_well_formed(head->Some_0@) && final(self)@ == old(self)@.drop_first(),
    {
        let head = self.items.pop_front();
        proof {
            match &head {
                Some(command) => {
                    use_type_invariant(command);
                    assert(self@ =~= old(self)@.drop_first());
                },
                None => {},
            }
        }
        head
    }

    /// Drops every waiting command, whatever the run state.
    pub fn clear(&mut self)
        ensures
            final(self)@ == Seq::<Seq<char>>::empty(),
    {
        self.items.clear();
        assert(self@ =~= Seq::<Seq<char>>::empty());
    }

    /// How many commands wait.
    pub fn length(&self) -> (n: usize)
        ensures
            n == self@.len(),
    {
        self.items.len()
    }

    /// Whether no command waits.
    pub fn is_empty(&self) -> (b: bool)
        ensures
            b == (self@.len() == 0),
    {
        self.items.len() == 0
    }
}

} // verus!
