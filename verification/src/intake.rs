//! Command intake: what the network side may ask of the relay.
//!
//! Every operation here is one short critical section on the shared queue
//! and run state. None of them touches the device: the answer says whether
//! the caller owes the dispatcher a wake token, and the caller delivers it.
//! Each operation is one step of the relay's state machine, and says so.

use crate::command::{is_well_formed, ValidationError};
use crate::dispatch::DispatchPhase;
use crate::model::{
    lemma_clear_is_a_step, lemma_pause_is_a_step, lemma_resume_is_a_step, lemma_submit_is_a_step,
    relay_state, step, tokens_in, tokens_owed, Event,
};
use crate::queue::CommandQueue;
use crate::run_state::{wake_after_enqueue, ControlMessage, RunState, RunStateController};
use vstd::prelude::*;

verus! {

/// A snapshot of the relay for status reports.
#[derive(Clone, Copy, Debug, PartialEq, Eq, Structural)]
pub struct BufferState {
    /// How many commands wait in the queue.
    pub buffer_length: u64,
    /// Whether the relay hands commands to the device.
    pub running_status: RunState,
}

/// What `submit` answers for the line `raw` when the run state is `state`.
pub open spec fn submit_answer(state: RunState, raw: Seq<char>) -> Result<
    Option<ControlMessage>,
    ValidationError,
> {
    if is_well_formed(raw) {
        Ok(wake_after_enqueue(state))
    } else {
        Err(ValidationError::InvalidCommand)
    }
}

/// The queue after `submit` was called with the line `raw`.
pub open spec fn queue_after_submit(queue: Seq<Seq<char>>, raw: Seq<char>) -> Seq<Seq<char>> {
    if is_well_formed(raw) {
        queue.push(raw)
    } else {
        queue
    }
}

/// Takes one line from a client. A well-formed line is appended to the
/// queue, in either run state, and the answer holds the wake token that the
/// caller must send if the relay is running. Any other line is refused and
/// changes nothing. This is the step `Submit` of the relay, wherever the
/// consumer stands.
pub fn submit(queue: &mut CommandQueue, controller: &RunStateController, raw: String) -> (r: Result<
    Option<ControlMessage>,
    ValidationError,
>)
    ensures
        r == submit_answer(controller@, raw@),
        final(queue)@ == queue_after_submit(old(queue)@, raw@),
        forall|phase: DispatchPhase, pending: nat, unannounced: nat|
            #[trigger] step(
                relay_state(old(queue)@, controller@, phase, pending, unannounced),
                Event::Submit(raw@),
            ) == relay_state(
                final(queue)@,
                controller@,
                phase,
                pending + tokens_owed(r),
                unannounced,
            ),
{
    let ghost line = raw@;
    let r = match queue.enqueue(raw) {
        Ok(()) => Ok(controller.wake_on_enqueue()),
        Err(e) => Err(e),
    };
    proof {
        assert forall|phase: DispatchPhase, pending: nat, unannounced: nat|
            #[trigger] step(
                relay_state(old(queue)@, controller@, phase, pending, unannounced),
                Event::Submit(line),
            ) == relay_state(queue@, controller@, phase, pending + tokens_owed(r), unannounced) by {
            lemma_submit_is_a_step(
                relay_state(old(queue)@, controller@, phase, pending, unannounced),
                line,
                r,
                queue@,
            );
        }
    }
    r
}

/// Stops dispatch after the command that is in flight, if any. The queue
/// keeps what it holds and goes on taking commands. This is the step
/// `Pause` of the relay.
pub fn pause(controller: &mut RunStateController)
    ensures
        final(controller)@ == RunState::Paused,
        forall|queue: Seq<Seq<char>>, phase: DispatchPhase, pending: nat, unannounced: nat|
            #[trigger] step(
                relay_state(queue, old(controller)@, phase, pending, unannounced),
                Event::Pause,
            ) == relay_state(queue, final(controller)@, phase, pending, unannounced),
{
    controller.pause();
    proof {
        assert forall|queue: Seq<Seq<char>>, phase: DispatchPhase, pending: nat, unannounced: nat|
            #[trigger] step(
                relay_state(queue, old(controller)@, phase, pending, unannounced),
                Event::Pause,
            ) == relay_state(queue, controller@, phase, pending, unannounced) by {
            lemma_pause_is_a_step(
                relay_state(queue, old(controller)@, phase, pending, unannounced),
                controller@,
            );
        }
    }
}

/// Lets dispatch go on. The caller must send the returned wake token, since
/// commands may have arrived while the relay was paused. This is the step
/// `Resume` of the relay.
pub fn resume(controller: &mut RunStateController) -> (wake: ControlMessage)
    ensures
        final(controller)@ == RunState::Running,
        wake == ControlMessage::CheckBuffer,
        forall|queue: Seq<Seq<char>>, phase: DispatchPhase, pending: nat, unannounced: nat|
            #[trigger] step(
                relay_state(queue, old(controller)@, phase, pending, unannounced),
                Event::Resume,
            ) == relay_state(
                queue,
                final(controller)@,
                phase,
                pending + tokens_in(Some(wake)),
                unannounced,
            ),
{
    let wake = controller.resume();
    proof {
        assert forall|queue: Seq<Seq<char>>, phase: DispatchPhase, pending: nat, unannounced: nat|
            #[trigger] step(
                relay_state(queue, old(controller)@, phase, pending, unannounced),
                Event::Resume,
            ) == relay_state(
                queue,
                controller@,
                phase,
                pending + tokens_in(Some(wake)),
                unannounced,
            ) by {
            lemma_resume_is_a_step(
                relay_state(queue, old(controller)@, phase, pending, unannounced),
                controller@,
                wake,
            );
        }
    }
    wake
}

/// Empties the queue at once, in either run state. A command that the
/// dispatcher has already taken out is not in the queue and is not touched.
/// This is the step `Clear` of the relay.
pub fn clear(queue: &mut CommandQueue)
    ensures
        final(queue)@ == Seq::<Seq<char>>::empty(),
        forall|run_state: RunState, phase: DispatchPhase, pending: nat, unannounced: nat|
            #[trigger] step(
                relay_state(old(queue)@, run_state, phase, pending, unannounced),
                Event::Clear,
            ) == relay_state(final(queue)@, run_state, phase, pending, unannounced),
{
    queue.clear();
    proof {
        assert forall|run_state: RunState, phase: DispatchPhase, pending: nat, unannounced: nat|
            #[trigger] step(
                relay_state(old(queue)@, run_state, phase, pending, unannounced),
                Event::Clear,
            ) == relay_state(queue@, run_state, phase, pending, unannounced) by {
            lemma_clear_is_a_step(
                relay_state(old(queue)@, run_state, phase, pending, unannounced),
                queue@,
            );
        }
    }
}

/// Reports the queue length and the run state as they stand.
pub fn get_state(queue: &CommandQueue, controller: &RunStateController) -> (state: BufferState)
    ensures
        state.buffer_length == queue@.len(),
        state.running_status == controller@,
{
    BufferState { buffer_length: queue.length() as u64, running_status: controller.current() }
}

} // verus!
