use fix_engine_2::clock::Clock;
use fix_engine_2::clock::RealClock;
use fix_engine_2::engine::Direction;
use fix_engine_2::engine::EngineState;
use fix_engine_2::engine::Lifecycle;
use fix_engine_2::engine::QueueOutcome;
use fix_engine_2::engine::ReadOutcome;
use fix_engine_2::engine::ReceiveLoop;
use fix_engine_2::engine::ReceiveStep;
use fix_engine_2::engine::SendLoop;
use fix_engine_2::engine::SendStep;
use fix_engine_2::message::calculate_checksum;
use fix_engine_2::message::FixMessage;
use std::sync::Arc;

struct FixedClock;

impl Clock for FixedClock {
    fn now(&self) -> String {
        "20231016-12:30:00.123".to_string()
    }
}

fn wire(body: &str) -> Vec<u8> {
    format!("{}10={}\x01", body, calculate_checksum(body)).into_bytes()
}

fn delivered(step: ReceiveStep) -> FixMessage {
    match step {
        ReceiveStep::Deliver(message) => message,
        other => panic!("{:?}", other),
    }
}

#[test]
fn the_receive_loop_gathers_chunks_until_a_message_is_complete() {
    let text = wire("8=FIX.4.4\x019=5\x0135=A\x01");
    let mut receive = ReceiveLoop::new();
    let (head, tail) = text.split_at(10);
    assert!(matches!(receive.on_read(ReadOutcome::Data(head.to_vec()), false), ReceiveStep::Continue));
    assert_eq!(receive.pending(), 10);
    let message = delivered(receive.on_read(ReadOutcome::Data(tail.to_vec()), false));
    assert_eq!(message.header.get("35").unwrap(), "A");
    assert_eq!(receive.pending(), 0);
    assert!(!receive.has_exited());
}

#[test]
fn the_receive_loop_cuts_one_message_off_after_a_read() {
    let first = wire("8=FIX.4.4\x019=5\x0135=A\x01");
    let second = wire("8=FIX.4.4\x019=5\x0135=8\x01");
    let mut both = first.clone();
    both.extend_from_slice(&second);
    let mut receive = ReceiveLoop::new();
    let message = delivered(receive.on_read(ReadOutcome::Data(both), true));
    assert_eq!(message.header.get("35").unwrap(), "A");
    assert_eq!(receive.pending(), second.len());
    assert!(matches!(receive.on_read(ReadOutcome::TimedOut, false), ReceiveStep::Continue));
    assert_eq!(receive.pending(), second.len());
    let message = delivered(receive.on_read(ReadOutcome::Data(b"x".to_vec()), false));
    assert_eq!(message.header.get("35").unwrap(), "8");
    assert_eq!(receive.pending(), 1);
}

#[test]
fn the_receive_loop_drops_a_message_that_cannot_be_read() {
    let mut receive = ReceiveLoop::new();
    let bad = b"8=FIX.4.4\x0135=A\x0110=999\x01next".to_vec();
    assert!(matches!(receive.on_read(ReadOutcome::Data(bad), false), ReceiveStep::Continue));
    assert_eq!(receive.pending(), 4);
    assert!(!receive.has_exited());
}

#[test]
fn the_receive_loop_ignores_an_empty_read() {
    let mut receive = ReceiveLoop::new();
    assert!(matches!(receive.on_read(ReadOutcome::Data(b"10=".to_vec()), false), ReceiveStep::Continue));
    assert!(matches!(receive.on_read(ReadOutcome::Data(Vec::new()), true), ReceiveStep::Continue));
    assert_eq!(receive.pending(), 3);
    assert!(!receive.has_exited());
}

#[test]
fn the_receive_loop_leaves_at_a_timeout_after_shutdown_or_at_a_failure() {
    let mut receive = ReceiveLoop::new();
    assert!(matches!(receive.on_read(ReadOutcome::TimedOut, false), ReceiveStep::Continue));
    assert!(!receive.has_exited());
    assert!(matches!(receive.on_read(ReadOutcome::TimedOut, true), ReceiveStep::Exit));
    assert!(receive.has_exited());

    let mut failed = ReceiveLoop::new();
    assert!(matches!(failed.on_read(ReadOutcome::Failed, false), ReceiveStep::Exit));
    assert!(failed.has_exited());
}

#[test]
fn a_receive_loop_that_has_left_does_nothing_any_more() {
    let mut receive = ReceiveLoop::new();
    assert!(matches!(receive.on_read(ReadOutcome::Data(b"8=FIX".to_vec()), false), ReceiveStep::Continue));
    assert!(matches!(receive.on_read(ReadOutcome::Failed, false), ReceiveStep::Exit));
    let text = wire("8=FIX.4.4\x019=5\x0135=A\x01");
    assert!(matches!(receive.on_read(ReadOutcome::Data(text), false), ReceiveStep::Exit));
    assert!(matches!(receive.on_read(ReadOutcome::TimedOut, false), ReceiveStep::Exit));
    assert_eq!(receive.pending(), 5);
    assert!(receive.has_exited());
}

#[test]
fn the_send_loop_writes_what_it_is_given() {
    let clock: Arc<dyn Clock> = Arc::new(FixedClock);
    let mut send = SendLoop::new();
    let mut message = FixMessage::new();
    message.header.insert("35".to_string(), "0".to_string());
    match send.on_outgoing(QueueOutcome::Message(message), true, &clock) {
        SendStep::Write(text) => {
            assert_eq!(text, "8=FIX.4.4\x019=30\x0135=0\x0152=20231016-12:30:00.123\x0110=144\x01")
        }
        other => panic!("{:?}", other),
    }
    assert!(!send.exited);
    assert!(matches!(send.on_written(true), SendStep::Continue));
    assert!(!send.exited);
}

#[test]
fn the_send_loop_leaves_at_a_timeout_after_shutdown_or_at_a_failed_write() {
    let clock: Arc<dyn Clock> = Arc::new(FixedClock);
    let mut send = SendLoop::new();
    assert!(matches!(send.on_outgoing(QueueOutcome::TimedOut, false, &clock), SendStep::Continue));
    assert!(matches!(send.on_outgoing(QueueOutcome::TimedOut, true, &clock), SendStep::Exit));
    assert!(send.exited);
    assert!(matches!(send.on_outgoing(QueueOutcome::Message(FixMessage::new()), false, &clock), SendStep::Exit));
    assert!(matches!(send.on_written(true), SendStep::Exit));

    let mut failed = SendLoop::new();
    assert!(matches!(failed.on_written(false), SendStep::Exit));
    assert!(failed.exited);
    assert!(matches!(failed.on_outgoing(QueueOutcome::TimedOut, false, &clock), SendStep::Exit));
}

#[test]
fn an_engine_runs_then_shuts_down_then_is_stopped() {
    let mut life = Lifecycle::new();
    assert_eq!(life.state(), EngineState::Running);
    life.loop_exited(Direction::Receive);
    assert_eq!(life.state(), EngineState::Running);
    life.request_shutdown();
    assert_eq!(life.state(), EngineState::ShuttingDown);
    life.loop_exited(Direction::Receive);
    assert_eq!(life.state(), EngineState::ShuttingDown);
    life.loop_exited(Direction::Send);
    assert_eq!(life.state(), EngineState::Stopped);
    life.request_shutdown();
    life.loop_exited(Direction::Send);
    assert_eq!(life.state(), EngineState::Stopped);

    let mut late = Lifecycle::new();
    late.loop_exited(Direction::Send);
    late.loop_exited(Direction::Receive);
    assert_eq!(late.state(), EngineState::Running);
    late.request_shutdown();
    assert_eq!(late.state(), EngineState::Stopped);
}

#[test]
fn the_system_clock_gives_a_time_stamp() {
    let stamp = RealClock.now();
    assert!(stamp.len() >= 21);
    assert!(stamp.bytes().all(|b| b.is_ascii_digit() || b"+-:.".contains(&b)));
    let bytes = stamp.as_bytes();
    let n = bytes.len();
    assert_eq!(bytes[n - 4], b'.');
    assert_eq!(bytes[n - 7], b':');
    assert_eq!(bytes[n - 10], b':');
    assert_eq!(bytes[n - 13], b'-');
    let mut message = FixMessage::new();
    let clock: Arc<dyn Clock> = Arc::new(RealClock);
    let text = message.encode(&clock);
    let read = FixMessage::decode(&text).unwrap();
    assert_eq!(read.header.get("52"), message.header.get("52"));
}

fn create_logon_message() -> FixMessage {
    let fixed_clock = FixedClock;
    let mut msg = FixMessage::new();
    msg.header.insert("8".to_string(), "FIX.4.4".to_string());
    msg.header.insert("35".to_string(), "A".to_string());
    msg.header.insert("49".to_string(), "INITIATOR".to_string());
    msg.header.insert("56".to_string(), "ACCEPTOR".to_string());
    msg.header.insert("34".to_string(), "1".to_string());
    msg.header.insert("52".to_string(), fixed_clock.now());
    msg
}

fn create_execution_report() -> FixMessage {
    let fixed_clock = FixedClock;
    let mut msg = FixMessage::new();
    msg.header.insert("8".to_string(), "FIX.4.4".to_string());
    msg.header.insert("35".to_string(), "8".to_string());
    msg.header.insert("49".to_string(), "ACCEPTOR".to_string());
    msg.header.insert("56".to_string(), "INITIATOR".to_string());
    msg.header.insert("34".to_string(), "2".to_string());
    msg.header.insert("52".to_string(), fixed_clock.now());
    msg
}

fn written(step: SendStep) -> Vec<u8> {
    match step {
        SendStep::Write(text) => text.into_bytes(),
        other => panic!("{:?}", other),
    }
}

#[test]
fn test_initiator_acceptor_can_exchange_messages() {
    let clock: Arc<dyn Clock> = Arc::new(FixedClock);
    let mut initiator_send = SendLoop::new();
    let mut initiator_receive = ReceiveLoop::new();
    let mut acceptor_send = SendLoop::new();
    let mut acceptor_receive = ReceiveLoop::new();

    let on_the_wire = written(initiator_send.on_outgoing(QueueOutcome::Message(create_logon_message()), false, &clock));
    assert!(matches!(initiator_send.on_written(true), SendStep::Continue));
    let message = delivered(acceptor_receive.on_read(ReadOutcome::Data(on_the_wire), false));
    assert_eq!(message.header.get("35").unwrap(), "A");

    let on_the_wire = written(acceptor_send.on_outgoing(QueueOutcome::Message(create_execution_report()), false, &clock));
    assert!(matches!(acceptor_send.on_written(true), SendStep::Continue));
    let response = delivered(initiator_receive.on_read(ReadOutcome::Data(on_the_wire), false));
    assert_eq!(response.header.get("35").unwrap(), "8");

    assert!(matches!(acceptor_send.on_outgoing(QueueOutcome::TimedOut, true, &clock), SendStep::Exit));
    assert!(matches!(acceptor_receive.on_read(ReadOutcome::TimedOut, true), ReceiveStep::Exit));
    assert!(matches!(initiator_send.on_outgoing(QueueOutcome::TimedOut, true, &clock), SendStep::Exit));
    assert!(matches!(initiator_receive.on_read(ReadOutcome::TimedOut, true), ReceiveStep::Exit));
}
