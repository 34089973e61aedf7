use axidraw_relay::command::{check_line, Command, ValidationError};
use axidraw_relay::dispatch::{DispatchAction, DispatchPhase, Dispatcher};
use axidraw_relay::intake::{clear, get_state, pause, resume, submit, BufferState};
use axidraw_relay::queue::CommandQueue;
use axidraw_relay::run_state::{ControlMessage, RunState, RunStateController};
use axidraw_relay::transceiver::{
    after_write, encode_request, ReadOutcome, ReadStep, WriteOutcome,
};

/// A device that takes every request and answers each with one line.
struct MockDevice {
    received: Vec<Vec<u8>>,
    responses: Vec<String>,
}

impl MockDevice {
    fn new() -> Self {
        MockDevice { received: Vec::new(), responses: Vec::new() }
    }

    fn exchange(&mut self, command: &Command) {
        self.received.push(encode_request(command));
        let mut reader = after_write(WriteOutcome::Flushed).unwrap();
        match reader.on_read(ReadOutcome::Data(b"OK\r\n".to_vec())) {
            ReadStep::Line(line) => self.responses.push(line),
            other => panic!("no response line: {:?}", other),
        }
    }
}

/// The relay as one process would hold it, with the mailbox as a list.
struct Rig {
    queue: CommandQueue,
    controller: RunStateController,
    dispatcher: Dispatcher,
    mailbox: Vec<ControlMessage>,
    device: MockDevice,
}

impl Rig {
    fn new() -> Self {
        Rig {
            queue: CommandQueue::new(),
            controller: RunStateController::new(),
            dispatcher: Dispatcher::new(),
            mailbox: Vec::new(),
            device: MockDevice::new(),
        }
    }

    fn submit(&mut self, raw: &str) -> Result<(), ValidationError> {
        match submit(&mut self.queue, &self.controller, raw.to_string()) {
            Ok(Some(token)) => {
                self.mailbox.push(token);
                Ok(())
            }
            Ok(None) => Ok(()),
            Err(e) => Err(e),
        }
    }

    fn pause(&mut self) {
        pause(&mut self.controller);
    }

    fn resume(&mut self) {
        let token = resume(&mut self.controller);
        self.mailbox.push(token);
    }

    fn state(&self) -> BufferState {
        get_state(&self.queue, &self.controller)
    }

    /// Runs the consumer until it blocks on an empty mailbox.
    fn run_consumer(&mut self) {
        loop {
            match self.dispatcher.next_action(&self.controller, &mut self.queue) {
                DispatchAction::Send(command) => self.device.exchange(&command),
                DispatchAction::AwaitWake => {
                    if self.mailbox.is_empty() {
                        return;
                    }
                    let token = self.mailbox.remove(0);
                    self.dispatcher.on_wake(token);
                }
            }
        }
    }
}

#[test]
fn malformed_lines_are_refused_and_leave_the_queue_alone() {
    let mut rig = Rig::new();
    assert_eq!(rig.submit("M0"), Ok(()));
    assert_eq!(rig.state().buffer_length, 1);
    assert_eq!(rig.submit(""), Err(ValidationError::InvalidCommand));
    assert_eq!(rig.state().buffer_length, 1);
    assert_eq!(rig.submit("a\r"), Err(ValidationError::InvalidCommand));
    assert_eq!(rig.state().buffer_length, 1);
    assert_eq!(rig.submit("a\nb"), Err(ValidationError::InvalidCommand));
    assert_eq!(rig.state().buffer_length, 1);
    assert_eq!(rig.mailbox.len(), 1);
}

#[test]
fn three_commands_reach_a_running_device_in_order() {
    let mut rig = Rig::new();
    assert_eq!(rig.submit("M1"), Ok(()));
    assert_eq!(rig.submit("M2"), Ok(()));
    assert_eq!(rig.submit("M3"), Ok(()));
    assert_eq!(rig.mailbox.len(), 3);
    rig.run_consumer();
    assert_eq!(
        rig.device.received,
        vec![b"M1\r".to_vec(), b"M2\r".to_vec(), b"M3\r".to_vec()]
    );
    assert_eq!(rig.device.responses, vec!["OK".to_string(), "OK".to_string(), "OK".to_string()]);
    assert_eq!(
        rig.state(),
        BufferState { buffer_length: 0, running_status: RunState::Running }
    );
    assert!(rig.mailbox.is_empty());
    assert_eq!(rig.dispatcher.phase(), DispatchPhase::Waiting);
}

#[test]
fn paused_relay_queues_and_resume_sends_the_backlog() {
    let mut rig = Rig::new();
    rig.pause();
    assert_eq!(rig.submit("M1"), Ok(()));
    assert_eq!(rig.submit("M2"), Ok(()));
    rig.run_consumer();
    assert_eq!(
        rig.state(),
        BufferState { buffer_length: 2, running_status: RunState::Paused }
    );
    assert!(rig.device.received.is_empty());
    assert!(rig.mailbox.is_empty());
    rig.resume();
    assert_eq!(rig.mailbox, vec![ControlMessage::CheckBuffer]);
    rig.run_consumer();
    assert_eq!(rig.device.received, vec![b"M1\r".to_vec(), b"M2\r".to_vec()]);
    assert_eq!(
        rig.state(),
        BufferState { buffer_length: 0, running_status: RunState::Running }
    );
}

#[test]
fn a_stale_token_does_not_get_a_paused_relay_to_send() {
    let mut rig = Rig::new();
    assert_eq!(rig.submit("M1"), Ok(()));
    rig.pause();
    assert_eq!(rig.mailbox.len(), 1);
    rig.run_consumer();
    assert!(rig.device.received.is_empty());
    assert_eq!(rig.state().buffer_length, 1);
    assert_eq!(rig.dispatcher.phase(), DispatchPhase::Waiting);
    rig.resume();
    rig.run_consumer();
    assert_eq!(rig.device.received, vec![b"M1\r".to_vec()]);
}

#[test]
fn pause_during_a_drain_stops_after_the_command_in_flight() {
    let mut rig = Rig::new();
    rig.submit("M1").unwrap();
    rig.submit("M2").unwrap();
    rig.submit("M3").unwrap();
    rig.dispatcher.on_wake(rig.mailbox.remove(0));
    let first = rig.dispatcher.next_action(&rig.controller, &mut rig.queue);
    let in_flight = match first {
        DispatchAction::Send(command) => command,
        DispatchAction::AwaitWake => panic!("nothing was taken out"),
    };
    rig.pause();
    rig.device.exchange(&in_flight);
    assert_eq!(
        rig.dispatcher.next_action(&rig.controller, &mut rig.queue),
        DispatchAction::AwaitWake
    );
    assert_eq!(rig.device.received, vec![b"M1\r".to_vec()]);
    assert_eq!(
        rig.state(),
        BufferState { buffer_length: 2, running_status: RunState::Paused }
    );
}

#[test]
fn clear_spares_the_command_in_flight_and_drops_the_rest() {
    let mut rig = Rig::new();
    rig.submit("M1").unwrap();
    rig.submit("M2").unwrap();
    rig.submit("M3").unwrap();
    rig.dispatcher.on_wake(rig.mailbox.remove(0));
    let in_flight = match rig.dispatcher.next_action(&rig.controller, &mut rig.queue) {
        DispatchAction::Send(command) => command,
        DispatchAction::AwaitWake => panic!("nothing was taken out"),
    };
    clear(&mut rig.queue);
    assert_eq!(rig.state().buffer_length, 0);
    rig.device.exchange(&in_flight);
    rig.submit("M4").unwrap();
    rig.run_consumer();
    assert_eq!(rig.device.received, vec![b"M1\r".to_vec(), b"M4\r".to_vec()]);
    assert_eq!(rig.state().buffer_length, 0);
}

#[test]
fn clear_works_while_paused() {
    let mut rig = Rig::new();
    rig.pause();
    rig.submit("M1").unwrap();
    rig.submit("M2").unwrap();
    clear(&mut rig.queue);
    assert_eq!(
        rig.state(),
        BufferState { buffer_length: 0, running_status: RunState::Paused }
    );
    rig.resume();
    rig.run_consumer();
    assert!(rig.device.received.is_empty());
}

#[test]
fn reported_length_is_accepted_less_sent_less_cleared() {
    let mut rig = Rig::new();
    let mut accepted: u64 = 0;
    for raw in ["A", "", "B", "C\n", "D", "E"] {
        if rig.submit(raw).is_ok() {
            accepted += 1;
        }
    }
    assert_eq!(accepted, 4);
    rig.dispatcher.on_wake(rig.mailbox.remove(0));
    let action = rig.dispatcher.next_action(&rig.controller, &mut rig.queue);
    assert!(matches!(action, DispatchAction::Send(_)));
    let sent: u64 = 1;
    assert_eq!(rig.state().buffer_length, accepted - sent);
    rig.pause();
    let cleared = rig.state().buffer_length;
    clear(&mut rig.queue);
    rig.submit("F").unwrap();
    accepted += 1;
    assert_eq!(rig.state().buffer_length, accepted - sent - cleared);
    assert_eq!(rig.state().running_status, RunState::Paused);
    rig.resume();
    assert_eq!(rig.state().running_status, RunState::Running);
}

#[test]
fn consumer_sends_nothing_before_its_first_token() {
    let mut queue = CommandQueue::new();
    let controller = RunStateController::new();
    let mut dispatcher = Dispatcher::new();
    assert_eq!(submit(&mut queue, &controller, "M1".to_string()), Ok(Some(ControlMessage::CheckBuffer)));
    assert_eq!(dispatcher.next_action(&controller, &mut queue), DispatchAction::AwaitWake);
    assert_eq!(queue.length(), 1);
    dispatcher.on_wake(ControlMessage::CheckBuffer);
    assert_eq!(dispatcher.phase(), DispatchPhase::Draining);
    match dispatcher.next_action(&controller, &mut queue) {
        DispatchAction::Send(command) => assert_eq!(command.as_str(), "M1"),
        DispatchAction::AwaitWake => panic!("nothing was taken out"),
    }
    assert_eq!(dispatcher.next_action(&controller, &mut queue), DispatchAction::AwaitWake);
    assert_eq!(dispatcher.phase(), DispatchPhase::Waiting);
}

#[test]
fn submit_owes_a_token_only_while_running() {
    let mut queue = CommandQueue::new();
    let mut controller = RunStateController::new();
    assert_eq!(
        submit(&mut queue, &controller, "M1".to_string()),
        Ok(Some(ControlMessage::CheckBuffer))
    );
    pause(&mut controller);
    assert_eq!(submit(&mut queue, &controller, "M2".to_string()), Ok(None));
    assert_eq!(
        submit(&mut queue, &controller, "\n".to_string()),
        Err(ValidationError::InvalidCommand)
    );
    assert_eq!(resume(&mut controller), ControlMessage::CheckBuffer);
    assert_eq!(queue.length(), 2);
}

#[test]
fn queue_is_first_in_first_out() {
    let mut queue = CommandQueue::new();
    assert!(queue.is_empty());
    assert_eq!(queue.dequeue_front(), None);
    assert_eq!(queue.enqueue("G1 X0".to_string()), Ok(()));
    assert_eq!(queue.enqueue("G1 X1".to_string()), Ok(()));
    assert_eq!(queue.enqueue("bad\r\n".to_string()), Err(ValidationError::InvalidCommand));
    assert_eq!(queue.length(), 2);
    assert!(!queue.is_empty());
    assert_eq!(queue.dequeue_front().unwrap().into_string(), "G1 X0");
    assert_eq!(queue.length(), 1);
    assert_eq!(queue.dequeue_front().unwrap().as_str(), "G1 X1");
    assert_eq!(queue.dequeue_front(), None);
    assert_eq!(queue.length(), 0);
}

#[test]
fn queue_clear_drops_everything() {
    let mut queue = CommandQueue::new();
    queue.clear();
    assert_eq!(queue.length(), 0);
    for i in 0..100 {
        queue.enqueue(format!("SM,{},0,0", i)).unwrap();
    }
    assert_eq!(queue.length(), 100);
    queue.clear();
    assert_eq!(queue.length(), 0);
    assert_eq!(queue.dequeue_front(), None);
}

#[test]
fn run_state_starts_running_and_follows_the_last_call() {
    let mut controller = RunStateController::new();
    assert_eq!(controller.current(), RunState::Running);
    assert_eq!(controller.wake_on_enqueue(), Some(ControlMessage::CheckBuffer));
    controller.pause();
    assert_eq!(controller.current(), RunState::Paused);
    assert_eq!(controller.wake_on_enqueue(), None);
    controller.pause();
    assert_eq!(controller.current(), RunState::Paused);
    assert_eq!(controller.resume(), ControlMessage::CheckBuffer);
    assert_eq!(controller.current(), RunState::Running);
    assert_eq!(controller.resume(), ControlMessage::CheckBuffer);
    assert_eq!(controller.current(), RunState::Running);
}

#[test]
fn command_parse_accepts_one_line_of_text() {
    assert_eq!(Command::parse("SP,1".to_string()).unwrap().as_str(), "SP,1");
    assert_eq!(Command::parse(" ".to_string()).unwrap().as_str(), " ");
    assert_eq!(Command::parse("\t".to_string()).unwrap().into_string(), "\t");
    assert_eq!(Command::parse("é→🖊".to_string()).unwrap().as_str(), "é→🖊");
    assert_eq!(Command::parse(String::new()), Err(ValidationError::InvalidCommand));
    assert_eq!(Command::parse("\r".to_string()), Err(ValidationError::InvalidCommand));
    assert_eq!(Command::parse("\n".to_string()), Err(ValidationError::InvalidCommand));
    assert_eq!(Command::parse("a\r\nb".to_string()), Err(ValidationError::InvalidCommand));
    assert_eq!(Command::parse("é\n".to_string()), Err(ValidationError::InvalidCommand));
    let command = Command::parse("EM,1,1".to_string()).unwrap();
    assert_eq!(command.clone(), command);
}

#[test]
fn check_line_knows_terminators_from_their_look_alikes() {
    assert!(check_line("M1"));
    assert!(!check_line(""));
    assert!(!check_line("\rM1"));
    assert!(!check_line("M1\n"));
    // U+010A and U+0D0D hold the bytes 0x0A and 0x0D only in their code points.
    assert!(check_line("\u{010A}"));
    assert!(check_line("\u{0D0D}"));
    assert!(check_line("\u{2028}"));
    assert!(check_line("\u{000B}\u{000C}"));
}

#[test]
fn lines_of_two_clients_are_queued_and_sent_as_they_were_interleaved() {
    let mut rig = Rig::new();
    rig.submit("Z0").unwrap();
    let calls = [("a", "A1"), ("b", "B1"), ("b", "B2"), ("a", "A2"), ("b", "B3"), ("a", "A3")];
    for (_, line) in calls {
        assert_eq!(rig.submit(line), Ok(()));
    }
    assert_eq!(rig.state().buffer_length, 7);
    assert_eq!(rig.mailbox.len(), 7);
    assert!(rig.device.received.is_empty());
    rig.run_consumer();
    let sent: Vec<String> = rig
        .device
        .received
        .iter()
        .map(|frame| String::from_utf8(frame[..frame.len() - 1].to_vec()).unwrap())
        .collect();
    assert_eq!(sent, vec!["Z0", "A1", "B1", "B2", "A2", "B3", "A3"]);
    for client in ["a", "b"] {
        let own: Vec<&str> =
            calls.iter().filter(|(c, _)| *c == client).map(|(_, line)| *line).collect();
        let seen: Vec<&str> = sent
            .iter()
            .map(|line| line.as_str())
            .filter(|line| own.contains(line))
            .collect();
        assert_eq!(seen, own);
    }
    assert_eq!(rig.state().buffer_length, 0);
}

#[test]
fn split_submission_owes_its_token_at_the_look_at_the_run_state() {
    let mut queue = CommandQueue::new();
    let mut controller = RunStateController::new();
    let mut dispatcher = Dispatcher::new();
    controller.pause();
    assert_eq!(queue.enqueue("M1".to_string()), Ok(()));
    let token = controller.resume();
    let late = controller.wake_on_enqueue();
    assert_eq!(late, Some(ControlMessage::CheckBuffer));
    dispatcher.on_wake(token);
    assert!(matches!(dispatcher.next_action(&controller, &mut queue), DispatchAction::Send(_)));
    assert_eq!(dispatcher.next_action(&controller, &mut queue), DispatchAction::AwaitWake);
    dispatcher.on_wake(late.unwrap());
    assert_eq!(dispatcher.next_action(&controller, &mut queue), DispatchAction::AwaitWake);
    assert_eq!(queue.length(), 0);
}
