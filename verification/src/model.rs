//! The relay as a state machine, and what holds of every run of it.
//!
//! The shared queue and run state, the consumer's place in its loop and the
//! mailbox of wake tokens make up one state. Every call that the relay
//! serves is one event; a run is a sequence of events, applied one after the
//! other, which is how the locks order the calls of concurrent clients. The
//! contract of each operation says which step it is, and the same is stated
//! here, operation by operation.

use crate::command::{is_well_formed, ValidationError};
use crate::dispatch::{dispatch_target, DispatchPhase};
use crate::intake::{queue_after_submit, submit_answer};
use crate::queue::all_well_formed;
use crate::run_state::{wake_after_enqueue, ControlMessage, RunState};
use vstd::prelude::*;

verus! {

/// The state of the whole relay.
pub struct RelayState {
    /// The waiting commands, oldest first.
    pub queue: Seq<Seq<char>>,
    /// The run state.
    pub run_state: RunState,
    /// Where the consumer stands.
    pub phase: DispatchPhase,
    /// Wake tokens sent and not yet taken.
    pub pending_wakes: nat,
    /// Clients that have appended a command and not yet looked at the run
    /// state to see whether they owe a token.
    pub unannounced: nat,
}

/// One atomic step of the relay.
pub enum Event {
    /// A client submits a line, with the queue and the run state held
    /// together.
    Submit(Seq<char>),
    /// The first half of a submission that holds the two one after the
    /// other: the line is checked and appended.
    Enqueue(Seq<char>),
    /// The second half: a client that has appended looks at the run state
    /// and sends the token that it owes.
    Announce,
    /// A client pauses the relay.
    Pause,
    /// A client resumes the relay.
    Resume,
    /// A client clears the queue.
    Clear,
    /// The consumer, blocked on the mailbox, takes a token out of it.
    Wake,
    /// The consumer makes one round of its drain loop.
    Step,
}

/// The state in which the relay starts.
pub open spec fn initial() -> RelayState {
    RelayState {
        queue: Seq::empty(),
        run_state: RunState::Running,
        phase: DispatchPhase::Waiting,
        pending_wakes: 0,
        unannounced: 0,
    }
}

/// The relay state that is made up of the views of the queue, of the
/// controller and of the dispatcher, and of the two counters.
pub open spec fn relay_state(
    queue: Seq<Seq<char>>,
    run_state: RunState,
    phase: DispatchPhase,
    pending_wakes: nat,
    unannounced: nat,
) -> RelayState {
    RelayState { queue, run_state, phase, pending_wakes, unannounced }
}

/// How many wake tokens a client holds that was handed `wake`.
pub open spec fn tokens_in(wake: Option<ControlMessage>) -> nat {
    match wake {
        Some(_) => 1,
        None => 0,
    }
}

/// How many wake tokens the answer to a submission carries.
pub open spec fn tokens_owed(answer: Result<Option<ControlMessage>, ValidationError>) -> nat {
    match answer {
        Ok(wake) => tokens_in(wake),
        Err(_) => 0,
    }
}

/// By how many an append raises the number of clients that have yet to
/// look at the run state.
pub open spec fn appended(outcome: Result<(), ValidationError>) -> nat {
    match outcome {
        Ok(_) => 1,
        Err(_) => 0,
    }
}

/// The state after the event `e`.
pub open spec fn step(s: RelayState, e: Event) -> RelayState {
    match e {
        Event::Submit(raw) => RelayState {
            queue: queue_after_submit(s.queue, raw),
            pending_wakes: s.pending_wakes + tokens_owed(submit_answer(s.run_state, raw)),
            ..s
        },
        Event::Enqueue(raw) => RelayState {
            queue: queue_after_submit(s.queue, raw),
            unannounced: s.unannounced + if is_well_formed(raw) {
                1nat
            } else {
                0nat
            },
            ..s
        },
        Event::Announce => if s.unannounced > 0 {
            RelayState {
                unannounced: (s.unannounced - 1) as nat,
                pending_wakes: s.pending_wakes + tokens_in(wake_after_enqueue(s.run_state)),
                ..s
            }
        } else {
            s
        },
        Event::Pause => RelayState { run_state: RunState::Paused, ..s },
        Event::Resume => RelayState {
            run_state: RunState::Running,
            pending_wakes: s.pending_wakes + 1,
            ..s
        },
        Event::Clear => RelayState { queue: Seq::empty(), ..s },
        Event::Wake => if s.phase == DispatchPhase::Waiting && s.pending_wakes > 0 {
            RelayState {
                phase: DispatchPhase::Draining,
                pending_wakes: (s.pending_wakes - 1) as nat,
                ..s
            }
        } else {
            s
        },
        Event::Step => match dispatch_target(s.phase, s.run_state, s.queue) {
            Some(_) => RelayState { queue: s.queue.drop_first(), ..s },
            None => RelayState { phase: DispatchPhase::Waiting, ..s },
        },
    }
}

/// The command that the event `e` hands to the device, if any.
pub open spec fn sent_by(s: RelayState, e: Event) -> Option<Seq<char>> {
    match e {
        Event::Step => dispatch_target(s.phase, s.run_state, s.queue),
        _ => None,
    }
}

/// The command that the event `e` adds to the queue, if any.
pub open spec fn accepted_by(e: Event) -> Option<Seq<char>> {
    match e {
        Event::Submit(raw) | Event::Enqueue(raw) => if is_well_formed(raw) {
            Some(raw)
        } else {
            None
        },
        _ => None,
    }
}

/// How many waiting commands the event `e` throws away.
pub open spec fn cleared_by(s: RelayState, e: Event) -> nat {
    match e {
        Event::Clear => s.queue.len(),
        _ => 0,
    }
}

/// The state after the events `es`, from `s`.
pub open spec fn run(s: RelayState, es: Seq<Event>) -> RelayState
    decreases es.len(),
{
    if es.len() == 0 {
        s
    } else {
        step(run(s, es.drop_last()), es.last())
    }
}

/// The commands that the events `es` added to the queue, in order.
pub open spec fn accepted(es: Seq<Event>) -> Seq<Seq<char>>
    decreases es.len(),
{
    if es.len() == 0 {
        Seq::empty()
    } else {
        match accepted_by(es.last()) {
            Some(text) => accepted(es.drop_last()).push(text),
            None => accepted(es.drop_last()),
        }
    }
}

/// The commands handed to the device during the events `es`, in order.
pub open spec fn sent(s: RelayState, es: Seq<Event>) -> Seq<Seq<char>>
    decreases es.len(),
{
    if es.len() == 0 {
        Seq::empty()
    } else {
        match sent_by(run(s, es.drop_last()), es.last()) {
            Some(text) => sent(s, es.drop_last()).push(text),
            None => sent(s, es.drop_last()),
        }
    }
}

/// How many waiting commands were thrown away during the events `es`.
pub open spec fn cleared(s: RelayState, es: Seq<Event>) -> nat
    decreases es.len(),
{
    if es.len() == 0 {
        0
    } else {
        cleared(s, es.drop_last()) + cleared_by(run(s, es.drop_last()), es.last())
    }
}

/// The run state that the last pause or resume among `es` left; `start`
/// where there was none.
pub open spec fn run_state_after(start: RunState, es: Seq<Event>) -> RunState
    decreases es.len(),
{
    if es.len() == 0 {
        start
    } else {
        match es.last() {
            Event::Pause => RunState::Paused,
            Event::Resume => RunState::Running,
            _ => run_state_after(start, es.drop_last()),
        }
    }
}

/// Everything that was ever in the queue during a run from `s`: what waited
/// at the start, then what was accepted, in order.
pub open spec fn offered(s: RelayState, es: Seq<Event>) -> Seq<Seq<char>> {
    s.queue + accepted(es)
}

/// For each command handed to the device during `es`, its place in
/// `offered(s, es)`.
pub open spec fn sent_positions(s: RelayState, es: Seq<Event>) -> Seq<int>
    decreases es.len(),
{
    if es.len() == 0 {
        Seq::empty()
    } else {
        let before = es.drop_last();
        match sent_by(run(s, before), es.last()) {
            Some(_) => sent_positions(s, before).push(
                offered(s, before).len() - run(s, before).queue.len(),
            ),
            None => sent_positions(s, before),
        }
    }
}

/// `picked` holds the entries of `from` at the places `at`, and the places
/// rise: nothing is picked twice and nothing out of order.
pub open spec fn picked_in_order(picked: Seq<Seq<char>>, from: Seq<Seq<char>>, at: Seq<int>) -> bool {
    &&& at.len() == picked.len()
    &&& forall|i: int|
        0 <= i < at.len() ==> 0 <= #[trigger] at[i] < from.len() && from[at[i]] == picked[i]
    &&& forall|i: int, j: int| 0 <= i < j < at.len() ==> #[trigger] at[i] < #[trigger] at[j]
}

/// `n` rounds of the drain loop with nothing in between.
pub open spec fn drain(n: nat) -> Seq<Event> {
    Seq::new(n, |i: int| Event::Step)
}

/// No event of `es` clears the queue.
pub open spec fn without_clear(es: Seq<Event>) -> bool {
    forall|i: int| 0 <= i < es.len() ==> !(#[trigger] es[i] is Clear)
}

/// No event of `es` resumes the relay.
pub open spec fn without_resume(es: Seq<Event>) -> bool {
    forall|i: int| 0 <= i < es.len() ==> !(#[trigger] es[i] is Resume)
}

/// The consumer is blocked although it would have work to do.
pub open spec fn work_waits_unseen(s: RelayState) -> bool {
    s.phase == DispatchPhase::Waiting && s.run_state == RunState::Running && s.queue.len() > 0
}

/// Whenever the consumer is blocked with work to do, a token is on its way:
/// it lies in the mailbox, or a client that has appended is about to send
/// it.
pub open spec fn no_wake_lost(s: RelayState) -> bool {
    work_waits_unseen(s) ==> s.pending_wakes > 0 || s.unannounced > 0
}

/// `submit` is the step `Submit`: with the queue that it leaves and the
/// answer that it gives, the relay stands where the step puts it, the
/// answer's token counted as sent.
pub proof fn lemma_submit_is_a_step(
    s: RelayState,
    raw: Seq<char>,
    answer: Result<Option<ControlMessage>, ValidationError>,
    queue_after: Seq<Seq<char>>,
)
    requires
        answer == submit_answer(s.run_state, raw),
        queue_after == queue_after_submit(s.queue, raw),
    ensures
        step(s, Event::Submit(raw)) == relay_state(
            queue_after,
            s.run_state,
            s.phase,
            s.pending_wakes + tokens_owed(answer),
            s.unannounced,
        ),
        accepted_by(Event::Submit(raw)) is Some <==> answer is Ok,
{
}

/// `CommandQueue::enqueue` is the step `Enqueue`: the first half of a
/// submission whose caller looks at the run state afterwards.
pub proof fn lemma_enqueue_is_a_step(
    s: RelayState,
    raw: Seq<char>,
    outcome: Result<(), ValidationError>,
    queue_after: Seq<Seq<char>>,
)
    requires
        is_well_formed(raw) ==> outcome is Ok && queue_after == s.queue.push(raw),
        !is_well_formed(raw) ==> outcome is Err && queue_after == s.queue,
    ensures
        step(s, Event::Enqueue(raw)) == relay_state(
            queue_after,
            s.run_state,
            s.phase,
            s.pending_wakes,
            s.unannounced + appended(outcome),
        ),
        accepted_by(Event::Enqueue(raw)) is Some <==> outcome is Ok,
{
}

/// `RunStateController::wake_on_enqueue` is the step `Announce`, for a
/// client that has appended: the token that it is handed counts as sent.
pub proof fn lemma_announce_is_a_step(s: RelayState, wake: Option<ControlMessage>)
    requires
        s.unannounced > 0,
        wake == wake_after_enqueue(s.run_state),
    ensures
        step(s, Event::Announce) == relay_state(
            s.queue,
            s.run_state,
            s.phase,
            s.pending_wakes + tokens_in(wake),
            (s.unannounced - 1) as nat,
        ),
{
}

/// `pause` is the step `Pause`.
pub proof fn lemma_pause_is_a_step(s: RelayState, run_state_after: RunState)
    requires
        run_state_after == RunState::Paused,
    ensures
        step(s, Event::Pause) == relay_state(
            s.queue,
            run_state_after,
            s.phase,
            s.pending_wakes,
            s.unannounced,
        ),
{
}

/// `resume` is the step `Resume`, the token that it returns counted as sent.
pub proof fn lemma_resume_is_a_step(s: RelayState, run_state_after: RunState, wake: ControlMessage)
    requires
        run_state_after == RunState::Running,
        wake == ControlMessage::CheckBuffer,
    ensures
        step(s, Event::Resume) == relay_state(
            s.queue,
            run_state_after,
            s.phase,
            s.pending_wakes + tokens_in(Some(wake)),
            s.unannounced,
        ),
{
}

/// `clear` is the step `Clear`.
pub proof fn lemma_clear_is_a_step(s: RelayState, queue_after: Seq<Seq<char>>)
    requires
        queue_after == Seq::<Seq<char>>::empty(),
    ensures
        step(s, Event::Clear) == relay_state(
            queue_after,
            s.run_state,
            s.phase,
            s.pending_wakes,
            s.unannounced,
        ),
        cleared_by(s, Event::Clear) == s.queue.len(),
{
}

/// `Dispatcher::on_wake` is the step `Wake`, for a consumer that was
/// blocked and has taken a token out of the mailbox.
pub proof fn lemma_wake_is_a_step(s: RelayState, phase_after: DispatchPhase)
    requires
        s.phase == DispatchPhase::Waiting,
        s.pending_wakes > 0,
        phase_after == DispatchPhase::Draining,
    ensures
        step(s, Event::Wake) == relay_state(
            s.queue,
            s.run_state,
            phase_after,
            (s.pending_wakes - 1) as nat,
            s.unannounced,
        ),
{
}

/// `Dispatcher::next_action` is the step `Step`: it leaves the queue and
/// the consumer where the step puts them, and the command that it hands
/// over for sending is the one that the step sends.
pub proof fn lemma_next_action_is_a_step(
    s: RelayState,
    handed_over: Option<Seq<char>>,
    queue_after: Seq<Seq<char>>,
    phase_after: DispatchPhase,
)
    requires
        handed_over == dispatch_target(s.phase, s.run_state, s.queue),
        handed_over is Some ==> queue_after == s.queue.drop_first() && phase_after
            == DispatchPhase::Draining,
        handed_over is None ==> queue_after == s.queue && phase_after == DispatchPhase::Waiting,
    ensures
        step(s, Event::Step) == relay_state(
            queue_after,
            s.run_state,
            phase_after,
            s.pending_wakes,
            s.unannounced,
        ),
        sent_by(s, Event::Step) == handed_over,
{
}

/// A run of two parts is the run of the second part from where the first
/// ended, and what it accepts, sends and clears is what the parts do.
pub proof fn lemma_run_in_two_parts(s: RelayState, first: Seq<Event>, second: Seq<Event>)
    ensures
        run(s, first + second) == run(run(s, first), second),
        accepted(first + second) == accepted(first) + accepted(second),
        sent(s, first + second) == sent(s, first) + sent(run(s, first), second),
        cleared(s, first + second) == cleared(s, first) + cleared(run(s, first), second),
    decreases second.len(),
{
    if second.len() == 0 {
        assert(first + second =~= first);
        assert(accepted(first) + accepted(second) =~= accepted(first));
        assert(sent(s, first) + sent(run(s, first), second) =~= sent(s, first));
    } else {
        let whole = first + second;
        assert(whole.drop_last() =~= first + second.drop_last());
        assert(whole.last() == second.last());
        lemma_run_in_two_parts(s, first, second.drop_last());
        let mid = run(s, first);
        match accepted_by(second.last()) {
            Some(text) => {
                assert(accepted(whole) =~= accepted(first) + accepted(second));
            },
            None => {},
        }
        match sent_by(run(mid, second.drop_last()), second.last()) {
            Some(text) => {
                assert(sent(s, whole) =~= sent(s, first) + sent(mid, second));
            },
            None => {},
        }
    }
}

/// A run of one event is that event's step.
pub proof fn lemma_single_event(s: RelayState, e: Event)
    ensures
        run(s, seq![e]) == step(s, e),
        sent(s, seq![e]) == match sent_by(s, e) {
            Some(text) => seq![text],
            None => Seq::<Seq<char>>::empty(),
        },
{
    let one = seq![e];
    assert(one.drop_last() =~= Seq::<Event>::empty());
    assert(one.last() == e);
    assert(run(s, one.drop_last()) == s);
    assert(sent(s, one.drop_last()) =~= Seq::<Seq<char>>::empty());
    match sent_by(s, e) {
        Some(text) => {
            assert(sent(s, one) =~= seq![text]);
        },
        None => {},
    }
}

/// Nothing is lost and nothing is made up: what waits, what was sent and
/// what was cleared add up to what waited at the start and what was
/// accepted since. The run state is the one that the last pause or resume
/// left.
pub proof fn lemma_queue_accounting(s: RelayState, es: Seq<Event>)
    ensures
        run(s, es).queue.len() + sent(s, es).len() + cleared(s, es) == s.queue.len() + accepted(
            es,
        ).len(),
        run(s, es).run_state == run_state_after(s.run_state, es),
    decreases es.len(),
{
    if es.len() > 0 {
        lemma_queue_accounting(s, es.drop_last());
    }
}

/// From the start of the relay, the queue length is the number of commands
/// accepted, less those sent and those cleared.
pub proof fn lemma_reported_length(es: Seq<Event>)
    ensures
        run(initial(), es).queue.len() == accepted(es).len() - sent(initial(), es).len() - cleared(
            initial(),
            es,
        ),
        run(initial(), es).run_state == run_state_after(RunState::Running, es),
{
    lemma_queue_accounting(initial(), es);
}

/// First in, first out. The commands sent during a run are picked from the
/// offered ones in rising order, all from before the part that still waits,
/// and the queue is the tail end of what was offered.
pub proof fn lemma_sent_in_submission_order(s: RelayState, es: Seq<Event>)
    ensures
        picked_in_order(sent(s, es), offered(s, es), sent_positions(s, es)),
        run(s, es).queue.len() <= offered(s, es).len(),
        run(s, es).queue == offered(s, es).skip(offered(s, es).len() - run(s, es).queue.len()),
        forall|i: int|
            0 <= i < sent_positions(s, es).len() ==> #[trigger] sent_positions(s, es)[i] < offered(
                s,
                es,
            ).len() - run(s, es).queue.len(),
    decreases es.len(),
{
    if es.len() == 0 {
        assert(offered(s, es) =~= s.queue);
        assert(s.queue =~= s.queue.skip(0));
    } else {
        let before = es.drop_last();
        let e = es.last();
        lemma_sent_in_submission_order(s, before);
        let at = run(s, before);
        let all = offered(s, before);
        let edge = all.len() - at.queue.len();
        let now = run(s, es);
        match e {
            Event::Submit(raw) | Event::Enqueue(raw) => {
                if is_well_formed(raw) {
                    assert(offered(s, es) =~= all.push(raw));
                    assert(now.queue =~= offered(s, es).skip(edge));
                }
            },
            Event::Clear => {
                assert(now.queue =~= offered(s, es).skip(offered(s, es).len() as int));
            },
            Event::Step => {
                if sent_by(at, e) is Some {
                    assert(at.queue[0] == all[edge]);
                    assert(now.queue =~= all.skip(edge + 1));
                }
            },
            _ => {},
        }
    }
}

/// While nobody clears the queue, what was sent, followed by what waits, is
/// exactly what was offered: the device gets the commands in the order of
/// their submission, without a gap.
pub proof fn lemma_fifo_without_clear(s: RelayState, es: Seq<Event>)
    requires
        without_clear(es),
    ensures
        sent(s, es) + run(s, es).queue == offered(s, es),
    decreases es.len(),
{
    if es.len() == 0 {
        assert(sent(s, es) + s.queue =~= s.queue + accepted(es));
    } else {
        let before = es.drop_last();
        let e = es.last();
        assert(without_clear(before)) by {
            assert forall|i: int| 0 <= i < before.len() implies !(#[trigger] before[i] is Clear) by {
                assert(before[i] == es[i]);
            }
        }
        lemma_fifo_without_clear(s, before);
        let at = run(s, before);
        assert(!(es[es.len() - 1] is Clear));
        match e {
            Event::Submit(raw) | Event::Enqueue(raw) => {
                if is_well_formed(raw) {
                    assert(sent(s, es) + run(s, es).queue =~= (sent(s, before) + at.queue).push(
                        raw,
                    ));
                    assert(offered(s, es) =~= offered(s, before).push(raw));
                }
            },
            Event::Step => {
                if sent_by(at, e) is Some {
                    assert(sent(s, es) + run(s, es).queue =~= sent(s, before) + at.queue);
                }
            },
            _ => {},
        }
    }
}

/// A paused relay sends nothing until it is resumed, whatever else happens.
pub proof fn lemma_paused_sends_nothing(s: RelayState, es: Seq<Event>)
    requires
        s.run_state == RunState::Paused,
        without_resume(es),
    ensures
        sent(s, es) == Seq::<Seq<char>>::empty(),
        run(s, es).run_state == RunState::Paused,
    decreases es.len(),
{
    if es.len() > 0 {
        let before = es.drop_last();
        assert(without_resume(before)) by {
            assert forall|i: int| 0 <= i < before.len() implies !(#[trigger] before[i] is Resume) by {
                assert(before[i] == es[i]);
            }
        }
        lemma_paused_sends_nothing(s, before);
        assert(!(es[es.len() - 1] is Resume));
    }
}

/// A paused relay goes on taking commands: until it is resumed or cleared,
/// every accepted command is added behind those that wait.
pub proof fn lemma_paused_queue_grows(s: RelayState, es: Seq<Event>)
    requires
        s.run_state == RunState::Paused,
        without_resume(es),
        without_clear(es),
    ensures
        run(s, es).queue == s.queue + accepted(es),
{
    lemma_paused_sends_nothing(s, es);
    lemma_fifo_without_clear(s, es);
    assert(sent(s, es) + run(s, es).queue =~= run(s, es).queue);
}

/// A draining consumer of a running relay, left alone, sends the waiting
/// commands from the head on, one per round.
pub proof fn lemma_drain(s: RelayState, n: nat)
    requires
        s.phase == DispatchPhase::Draining,
        s.run_state == RunState::Running,
        n <= s.queue.len(),
    ensures
        sent(s, drain(n)) == s.queue.take(n as int),
        run(s, drain(n)) == (RelayState { queue: s.queue.skip(n as int), ..s }),
    decreases n,
{
    if n == 0 {
        assert(s.queue.take(0) =~= Seq::<Seq<char>>::empty());
        assert(s.queue.skip(0) =~= s.queue);
    } else {
        let m = (n - 1) as nat;
        lemma_drain(s, m);
        assert(drain(n).drop_last() =~= drain(m));
        assert(drain(n).last() == Event::Step);
        let at = run(s, drain(m));
        assert(at.queue[0] == s.queue[m as int]);
        assert(sent(s, drain(n)) =~= s.queue.take(n as int));
        assert(at.queue.drop_first() =~= s.queue.skip(n as int));
    }
}

/// Resuming a paused relay gets exactly the backlog sent, in order: the
/// resume leaves a token, the consumer takes it if it was blocked, and one
/// drain empties the queue.
pub proof fn lemma_resume_dispatches_backlog(s: RelayState)
    requires
        s.run_state == RunState::Paused,
    ensures
        ({
            let woken = run(s, seq![Event::Resume, Event::Wake]);
            let done = seq![Event::Resume, Event::Wake] + drain(s.queue.len());
            &&& woken.phase == DispatchPhase::Draining
            &&& woken.run_state == RunState::Running
            &&& woken.queue == s.queue
            &&& sent(s, done) == s.queue
            &&& run(s, done).queue == Seq::<Seq<char>>::empty()
        }),
{
    let wake_up = seq![Event::Resume, Event::Wake];
    let resumed = step(s, Event::Resume);
    let woken = step(resumed, Event::Wake);
    lemma_single_event(s, Event::Resume);
    lemma_single_event(resumed, Event::Wake);
    lemma_run_in_two_parts(s, seq![Event::Resume], seq![Event::Wake]);
    assert(wake_up =~= seq![Event::Resume] + seq![Event::Wake]);
    assert(run(s, wake_up) == woken);
    assert(sent(s, wake_up) =~= Seq::<Seq<char>>::empty());
    lemma_drain(woken, s.queue.len());
    lemma_run_in_two_parts(s, wake_up, drain(s.queue.len()));
    assert(s.queue.take(s.queue.len() as int) =~= s.queue);
    assert(s.queue.skip(s.queue.len() as int) =~= Seq::<Seq<char>>::empty());
    assert(sent(s, wake_up) + sent(woken, drain(s.queue.len())) =~= s.queue);
}

/// No wake is lost. In every state that a run reaches, a consumer that is
/// blocked while the relay runs and commands wait has a token in its
/// mailbox, or is about to get one from a client that has just appended,
/// however the submissions, pauses and resumes fell.
pub proof fn lemma_no_wake_lost(s: RelayState, es: Seq<Event>)
    requires
        no_wake_lost(s),
    ensures
        no_wake_lost(run(s, es)),
    decreases es.len(),
{
    if es.len() > 0 {
        lemma_no_wake_lost(s, es.drop_last());
    }
}

/// Wake tokens do not add up to more work. A token that finds the relay
/// paused, or the queue empty, costs one look at the queue: nothing is
/// sent, and the consumer is blocked again with everything else as it was.
pub proof fn lemma_spare_wake_is_harmless(s: RelayState)
    requires
        s.phase == DispatchPhase::Waiting,
        s.pending_wakes > 0,
        s.run_state == RunState::Paused || s.queue.len() == 0,
    ensures
        sent(s, seq![Event::Wake, Event::Step]) == Seq::<Seq<char>>::empty(),
        run(s, seq![Event::Wake, Event::Step]) == (RelayState {
            pending_wakes: (s.pending_wakes - 1) as nat,
            ..s
        }),
{
    let woken = step(s, Event::Wake);
    lemma_single_event(s, Event::Wake);
    lemma_single_event(woken, Event::Step);
    lemma_run_in_two_parts(s, seq![Event::Wake], seq![Event::Step]);
    assert(seq![Event::Wake, Event::Step] =~= seq![Event::Wake] + seq![Event::Step]);
    assert(sent(s, seq![Event::Wake]) + sent(woken, seq![Event::Step]) =~= Seq::<
        Seq<char>,
    >::empty());
}

/// From its start the relay never loses a wake.
pub proof fn lemma_no_wake_lost_from_start(es: Seq<Event>)
    ensures
        no_wake_lost(run(initial(), es)),
{
    lemma_no_wake_lost(initial(), es);
}

/// Only validated commands wait, and only validated commands are sent: no
/// empty line and no line terminator gets past the intake.
pub proof fn lemma_only_well_formed_commands(s: RelayState, es: Seq<Event>)
    requires
        all_well_formed(s.queue),
    ensures
        all_well_formed(run(s, es).queue),
        all_well_formed(sent(s, es)),
        all_well_formed(accepted(es)),
    decreases es.len(),
{
    if es.len() > 0 {
        let before = es.drop_last();
        lemma_only_well_formed_commands(s, before);
        let at = run(s, before);
        match es.last() {
            Event::Step => {
                if sent_by(at, es.last()) is Some {
                    assert(is_well_formed(at.queue[0]));
                    assert forall|i: int| 0 <= i < at.queue.drop_first().len() implies is_well_formed(
                        #[trigger] at.queue.drop_first()[i],
                    ) by {
                        assert(at.queue.drop_first()[i] == at.queue[i + 1]);
                    }
                }
            },
            _ => {},
        }
    }
}

/// One submission in the order in which the queue saw it: the client that
/// made it, and its line.
pub struct Submission {
    pub client: nat,
    pub line: Seq<char>,
}

/// The events of a row of submissions.
pub open spec fn submissions(calls: Seq<Submission>) -> Seq<Event> {
    Seq::new(calls.len(), |i: int| Event::Submit(calls[i].line))
}

/// The lines of a row of submissions, whoever made them.
pub open spec fn lines(calls: Seq<Submission>) -> Seq<Seq<char>> {
    Seq::new(calls.len(), |i: int| calls[i].line)
}

/// Every line of `calls` is well formed.
pub open spec fn all_valid(calls: Seq<Submission>) -> bool {
    forall|i: int| 0 <= i < calls.len() ==> is_well_formed(#[trigger] calls[i].line)
}

/// The lines that `client` submitted among `calls`, in the order in which it
/// did.
pub open spec fn lines_of(calls: Seq<Submission>, client: nat) -> Seq<Seq<char>>
    decreases calls.len(),
{
    if calls.len() == 0 {
        Seq::empty()
    } else if calls.last().client == client {
        lines_of(calls.drop_last(), client).push(calls.last().line)
    } else {
        lines_of(calls.drop_last(), client)
    }
}

/// The places among `calls` of the submissions of `client`.
pub open spec fn places_of(calls: Seq<Submission>, client: nat) -> Seq<int>
    decreases calls.len(),
{
    if calls.len() == 0 {
        Seq::empty()
    } else if calls.last().client == client {
        places_of(calls.drop_last(), client).push(calls.len() - 1)
    } else {
        places_of(calls.drop_last(), client)
    }
}

/// The lines of one client stand among the lines of all at rising places:
/// each of them once, and in the order in which the client submitted them.
pub proof fn lemma_client_lines_keep_their_order(calls: Seq<Submission>, client: nat)
    ensures
        picked_in_order(lines_of(calls, client), lines(calls), places_of(calls, client)),
        forall|i: int|
            0 <= i < places_of(calls, client).len() ==> calls[#[trigger] places_of(
                calls,
                client,
            )[i]].client == client,
    decreases calls.len(),
{
    if calls.len() > 0 {
        let before = calls.drop_last();
        lemma_client_lines_keep_their_order(before, client);
        let at = places_of(calls, client);
        assert forall|i: int| 0 <= i < at.len() implies 0 <= #[trigger] at[i] < lines(calls).len()
            && lines(calls)[at[i]] == lines_of(calls, client)[i] && calls[at[i]].client
            == client by {
            if i < places_of(before, client).len() {
                let k = places_of(before, client)[i];
                assert(lines(before)[k] == lines(calls)[k]);
                assert(before[k] == calls[k]);
            }
        }
        assert forall|i: int, j: int| 0 <= i < j < at.len() implies #[trigger] at[i]
            < #[trigger] at[j] by {
            if j >= places_of(before, client).len() {
                assert(0 <= places_of(before, client)[i] < lines(before).len());
            }
        }
    }
}

/// Submissions of any number of clients, none of them refused and with no
/// round of the consumer and no clear in between, leave the queue as it was,
/// followed by one entry for each submission, in the order in which the
/// queue saw them. Nothing is sent meanwhile. The lines of each client are
/// among the new entries in the order in which that client submitted them.
pub proof fn lemma_concurrent_submissions_interleave(s: RelayState, calls: Seq<Submission>)
    requires
        all_valid(calls),
    ensures
        run(s, submissions(calls)).queue == s.queue + lines(calls),
        run(s, submissions(calls)).run_state == s.run_state,
        run(s, submissions(calls)).phase == s.phase,
        run(s, submissions(calls)).pending_wakes == s.pending_wakes + if s.run_state
            == RunState::Running {
            calls.len()
        } else {
            0
        },
        sent(s, submissions(calls)) == Seq::<Seq<char>>::empty(),
        accepted(submissions(calls)) == lines(calls),
        forall|client: nat|
            picked_in_order(
                lines_of(calls, client),
                lines(calls),
                #[trigger] places_of(calls, client),
            ),
    decreases calls.len(),
{
    let es = submissions(calls);
    if calls.len() == 0 {
        assert(s.queue + lines(calls) =~= s.queue);
        assert(accepted(es) =~= lines(calls));
    } else {
        let before = calls.drop_last();
        assert(all_valid(before)) by {
            assert forall|i: int| 0 <= i < before.len() implies is_well_formed(
                #[trigger] before[i].line,
            ) by {
                assert(before[i] == calls[i]);
            }
        }
        lemma_concurrent_submissions_interleave(s, before);
        assert(es.drop_last() =~= submissions(before));
        assert(es.last() == Event::Submit(calls.last().line));
        assert(is_well_formed(calls[calls.len() - 1].line));
        assert(s.queue + lines(calls) =~= (s.queue + lines(before)).push(calls.last().line));
        assert(accepted(es) =~= lines(calls));
    }
    assert forall|client: nat|
        picked_in_order(
            lines_of(calls, client),
            lines(calls),
            #[trigger] places_of(calls, client),
        ) by {
        lemma_client_lines_keep_their_order(calls, client);
    }
}

/// What concurrent clients submitted while the consumer was blocked reaches
/// the device in the order in which the queue saw it: the consumer of a
/// running relay takes one of their tokens and sends the queue from its head
/// on, which is what waited before, followed by the submitted lines.
pub proof fn lemma_interleaved_submissions_are_sent_in_queue_order(
    s: RelayState,
    calls: Seq<Submission>,
)
    requires
        all_valid(calls),
        calls.len() > 0,
        s.run_state == RunState::Running,
        s.phase == DispatchPhase::Waiting,
    ensures
        ({
            let wake_up = submissions(calls).push(Event::Wake);
            let all = wake_up + drain((s.queue + lines(calls)).len());
            &&& run(s, wake_up).phase == DispatchPhase::Draining
            &&& sent(s, all) == s.queue + lines(calls)
            &&& run(s, all).queue == Seq::<Seq<char>>::empty()
        }),
{
    lemma_concurrent_submissions_interleave(s, calls);
    let queued = run(s, submissions(calls));
    let n = queued.queue.len();
    let wake_up = submissions(calls).push(Event::Wake);
    let woken = step(queued, Event::Wake);
    lemma_single_event(queued, Event::Wake);
    lemma_run_in_two_parts(s, submissions(calls), seq![Event::Wake]);
    assert(wake_up =~= submissions(calls) + seq![Event::Wake]);
    assert(sent(s, wake_up) =~= Seq::<Seq<char>>::empty());
    lemma_run_in_two_parts(s, wake_up, drain(n));
    lemma_drain(woken, n);
    assert(queued.queue.take(n as int) =~= queued.queue);
    assert(queued.queue.skip(n as int) =~= Seq::<Seq<char>>::empty());
    assert(sent(s, wake_up) + sent(woken, drain(n)) =~= queued.queue);
}

/// A clear cuts the backlog off. What was sent before it stays sent, and
/// whatever is sent after it was accepted after it: no command that waited
/// when the queue was cleared reaches the device.
pub proof fn lemma_clear_cuts_backlog(s: RelayState, before: Seq<Event>, after: Seq<Event>)
    ensures
        ({
            let cleared_at = run(s, before.push(Event::Clear));
            &&& cleared_at.queue == Seq::<Seq<char>>::empty()
            &&& sent(s, before.push(Event::Clear) + after) == sent(s, before) + sent(
                cleared_at,
                after,
            )
            &&& picked_in_order(
                sent(cleared_at, after),
                accepted(after),
                sent_positions(cleared_at, after),
            )
        }),
{
    let upto = before.push(Event::Clear);
    assert(upto.drop_last() =~= before);
    assert(upto.last() == Event::Clear);
    let cleared_at = run(s, upto);
    assert(sent(s, upto) == sent(s, before));
    lemma_run_in_two_parts(s, upto, after);
    lemma_sent_in_submission_order(cleared_at, after);
    assert(offered(cleared_at, after) =~= accepted(after));
}

} // verus!
