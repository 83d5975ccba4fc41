//! The decisions of a duplex engine.
//!
//! An engine runs two loops over one connection. The receive loop reads with
//! a timeout, gathers what it reads, and delivers the messages it finds; the
//! send loop waits with a timeout for a message to send, and writes it. Both
//! look at the shutdown signal when their wait times out, and only then. Who
//! owns the connection performs the reads, the writes and the waits, and asks
//! the loops of this module what to do with each outcome.

use crate::clock::Clock;
use crate::frame::extract_message;
use crate::frame::frame_end;
use crate::frame::lossy_text;
use crate::message::decoded;
use crate::message::encoded;
use crate::message::FixMessage;
use crate::message::MessageView;
use std::sync::Arc;
use vstd::prelude::*;
use vstd::utf8::*;

verus! {

/// The side of the connection that the engine is on.
#[derive(Debug, Clone, Copy)]
pub enum FixEngineMode {
    Initiator,
    Acceptor,
}

/// Where an engine is in its life.
#[derive(Debug, Clone, Copy, PartialEq, Eq, Structural)]
pub enum EngineState {
    /// Both loops may run.
    Running,
    /// Shutdown was asked for, and a loop has not left yet.
    ShuttingDown,
    /// Shutdown was asked for, and both loops have left.
    Stopped,
}

/// One of the two loops of an engine.
#[derive(Debug, Clone, Copy, PartialEq, Eq, Structural)]
pub enum Direction {
    Receive,
    Send,
}

/// What an engine knows of its life: whether shutdown was asked for, and
/// which loops have left.
#[derive(Debug)]
pub struct Lifecycle {
    pub shutdown_requested: bool,
    pub receive_exited: bool,
    pub send_exited: bool,
}

/// The state of an engine for which shutdown was or was not asked, and whose
/// loops have or have not left.
pub open spec fn state_of(shutdown_requested: bool, receive_exited: bool, send_exited: bool)
    -> EngineState {
    if !shutdown_requested {
        EngineState::Running
    } else if receive_exited && send_exited {
        EngineState::Stopped
    } else {
        EngineState::ShuttingDown
    }
}

/// How far a state is: running, then shutting down, then stopped.
pub open spec fn rank(state: EngineState) -> nat {
    match state {
        EngineState::Running => 0,
        EngineState::ShuttingDown => 1,
        EngineState::Stopped => 2,
    }
}

impl Lifecycle {
    /// The state of the engine.
    pub open spec fn spec_state(&self) -> EngineState {
        state_of(self.shutdown_requested, self.receive_exited, self.send_exited)
    }

    /// The life of an engine that was just made: it is running.
    pub fn new() -> (life: Lifecycle)
        ensures
            life.spec_state() == EngineState::Running,
            !life.shutdown_requested,
            !life.receive_exited,
            !life.send_exited,
    {
        Lifecycle { shutdown_requested: false, receive_exited: false, send_exited: false }
    }

    /// The state of the engine.
    pub fn state(&self) -> (state: EngineState)
        ensures
            state == self.spec_state(),
    {
        if !self.shutdown_requested {
            EngineState::Running
        } else if self.receive_exited && self.send_exited {
            EngineState::Stopped
        } else {
            EngineState::ShuttingDown
        }
    }

    /// Notes that shutdown is asked for. A running engine is from now on
    /// shutting down, or stopped where both loops have left already.
    pub fn request_shutdown(&mut self)
        ensures
            final(self).shutdown_requested,
            final(self).receive_exited == old(self).receive_exited,
            final(self).send_exited == old(self).send_exited,
            final(self).spec_state() != EngineState::Running,
            rank(final(self).spec_state()) >= rank(old(self).spec_state()),
    {
        self.shutdown_requested = true;
    }

    /// Notes that a loop has left. An engine that is shutting down is stopped
    /// once both have.
    pub fn loop_exited(&mut self, direction: Direction)
        ensures
            final(self).shutdown_requested == old(self).shutdown_requested,
            final(self).receive_exited == (old(self).receive_exited || direction
                == Direction::Receive),
            final(self).send_exited == (old(self).send_exited || direction == Direction::Send),
            rank(final(self).spec_state()) >= rank(old(self).spec_state()),
    {
        match direction {
            Direction::Receive => {
                self.receive_exited = true;
            },
            Direction::Send => {
                self.send_exited = true;
            },
        }
    }
}

/// An engine is stopped only after shutdown was asked for and both loops
/// have left, and whatever is noted later leaves it stopped.
pub proof fn lemma_stopped_is_final(life: Lifecycle, receive: bool, send: bool)
    requires
        life.spec_state() == EngineState::Stopped,
    ensures
        life.shutdown_requested && life.receive_exited && life.send_exited,
        state_of(true, life.receive_exited || receive, life.send_exited || send)
            == EngineState::Stopped,
{
}

/// What one read on the connection gave.
#[derive(Debug)]
pub enum ReadOutcome {
    /// The bytes that were read; none at the end of the stream.
    Data(Vec<u8>),
    /// The read timed out.
    TimedOut,
    /// The read failed.
    Failed,
}

/// What the receive loop does after a read.
#[derive(Debug)]
pub enum ReceiveStep {
    /// Read again.
    Continue,
    /// Hand the message to the application, then read again.
    Deliver(FixMessage),
    /// Leave the loop.
    Exit,
}

/// What the receive loop does after a read, with the message as what it
/// holds.
pub enum ReceiveAction {
    Continue,
    Deliver(MessageView),
    Exit,
}

impl View for ReceiveStep {
    type V = ReceiveAction;

    open spec fn view(&self) -> ReceiveAction {
        match self {
            ReceiveStep::Continue => ReceiveAction::Continue,
            ReceiveStep::Deliver(message) => ReceiveAction::Deliver(message@),
            ReceiveStep::Exit => ReceiveAction::Exit,
        }
    }
}

/// What the receive loop holds: the bytes that were read and are not yet part
/// of a message, and whether the loop has left.
pub struct ReceiveState {
    pub buffer: Seq<u8>,
    pub exited: bool,
}

/// The bytes of the text that is read from a frame: the frame itself where it
/// is UTF-8, and the bytes of what `String::from_utf8_lossy` makes of it
/// where it is not.
pub open spec fn frame_text(frame: Seq<u8>) -> Seq<u8> {
    if valid_utf8(frame) {
        frame
    } else {
        encode_utf8(lossy_text(frame))
    }
}

/// What the receive loop does after a read, and what it holds then.
///
/// Bytes that were read are added to those held. Where these hold a complete
/// message it is cut off, and delivered if it can be read; a message that
/// cannot be read is dropped. One message at most is cut off after a read.
/// The loop leaves when a read fails, and when a read times out after
/// shutdown was asked for. A loop that has left does nothing any more.
pub open spec fn receive_next(state: ReceiveState, outcome: ReadOutcome, shutdown: bool) -> (
    ReceiveState,
    ReceiveAction,
) {
    if state.exited {
        (state, ReceiveAction::Exit)
    } else {
        match outcome {
            ReadOutcome::Data(chunk) => {
                let held = state.buffer + chunk@;
                if chunk@.len() == 0 {
                    (state, ReceiveAction::Continue)
                } else {
                    match frame_end(held) {
                        None => (
                            ReceiveState { buffer: held, exited: false },
                            ReceiveAction::Continue,
                        ),
                        Some(end) => (
                            ReceiveState { buffer: held.skip(end), exited: false },
                            match decoded(frame_text(held.take(end))) {
                                Ok(message) => ReceiveAction::Deliver(message),
                                Err(_) => ReceiveAction::Continue,
                            },
                        ),
                    }
                }
            },
            ReadOutcome::TimedOut => if shutdown {
                (ReceiveState { buffer: state.buffer, exited: true }, ReceiveAction::Exit)
            } else {
                (state, ReceiveAction::Continue)
            },
            ReadOutcome::Failed => (
                ReceiveState { buffer: state.buffer, exited: true },
                ReceiveAction::Exit,
            ),
        }
    }
}

/// The receive loop of an engine.
#[derive(Debug)]
pub struct ReceiveLoop {
    buffer: Vec<u8>,
    exited: bool,
}

impl View for ReceiveLoop {
    type V = ReceiveState;

    closed spec fn view(&self) -> ReceiveState {
        ReceiveState { buffer: self.buffer@, exited: self.exited }
    }
}

impl ReceiveLoop {
    /// A loop that has read nothing yet.
    pub fn new() -> (receive: ReceiveLoop)
        ensures
            receive@.buffer == Seq::<u8>::empty(),
            !receive@.exited,
    {
        ReceiveLoop { buffer: Vec::new(), exited: false }
    }

    /// Whether the loop has left.
    pub fn has_exited(&self) -> (exited: bool)
        ensures
            exited == self@.exited,
    {
        self.exited
    }

    /// The number of bytes that were read and are not yet part of a message.
    pub fn pending(&self) -> (n: usize)
        ensures
            n == self@.buffer.len(),
    {
        self.buffer.len()
    }

    /// Takes the outcome of a read, and says what to do next. `shutdown` is
    /// whether shutdown was asked for when the read returned.
    pub fn on_read(&mut self, outcome: ReadOutcome, shutdown: bool) -> (step: ReceiveStep)
        ensures
            (final(self)@, step@) == receive_next(old(self)@, outcome, shutdown),
    {
        if self.exited {
            return ReceiveStep::Exit;
        }
        match outcome {
            ReadOutcome::Data(chunk) => {
                if chunk.len() == 0 {
                    return ReceiveStep::Continue;
                }
                let mut chunk = chunk;
                self.buffer.append(&mut chunk);
                match extract_message(self.buffer.as_slice()) {
                    None => ReceiveStep::Continue,
                    Some((text, rest)) => {
                        self.buffer = rest;
                        match FixMessage::decode(text.as_str()) {
                            Ok(message) => ReceiveStep::Deliver(message),
                            Err(_) => ReceiveStep::Continue,
                        }
                    },
                }
            },
            ReadOutcome::TimedOut => {
                if shutdown {
                    self.exited = true;
                    ReceiveStep::Exit
                } else {
                    ReceiveStep::Continue
                }
            },
            ReadOutcome::Failed => {
                self.exited = true;
                ReceiveStep::Exit
            },
        }
    }
}

/// What the receive loop holds after a run of reads. `shutdown` says for each
/// read whether shutdown was asked for when it returned.
pub open spec fn receive_run(state: ReceiveState, outcomes: Seq<ReadOutcome>, shutdown: Seq<bool>)
    -> ReceiveState
    decreases outcomes.len(),
{
    if outcomes.len() == 0 {
        state
    } else {
        receive_next(
            receive_run(state, outcomes.drop_last(), shutdown.drop_last()),
            outcomes.last(),
            shutdown.last(),
        ).0
    }
}

/// A receive loop that has left stays so: whatever is read later, it delivers
/// nothing, asks for no further read, and holds what it held.
pub proof fn lemma_receive_loop_stays_exited(
    state: ReceiveState,
    outcomes: Seq<ReadOutcome>,
    shutdown: Seq<bool>,
)
    requires
        state.exited,
        outcomes.len() == shutdown.len(),
    ensures
        receive_run(state, outcomes, shutdown) == state,
        forall|outcome: ReadOutcome, asked: bool|
            #![trigger receive_next(receive_run(state, outcomes, shutdown), outcome, asked)]
            receive_next(receive_run(state, outcomes, shutdown), outcome, asked) == (
                state,
                ReceiveAction::Exit,
            ),
    decreases outcomes.len(),
{
    if outcomes.len() > 0 {
        lemma_receive_loop_stays_exited(state, outcomes.drop_last(), shutdown.drop_last());
    }
}

/// Once shutdown is asked for, the receive loop leaves at its next timeout.
pub proof fn lemma_receive_loop_sees_shutdown(state: ReceiveState)
    ensures
        receive_next(state, ReadOutcome::TimedOut, true).0.exited,
        receive_next(state, ReadOutcome::TimedOut, true).1 is Exit,
        receive_next(state, ReadOutcome::TimedOut, true).0.buffer == state.buffer,
{
}

/// What the wait for a message to send gave.
#[derive(Debug)]
pub enum QueueOutcome {
    /// A message to send.
    Message(FixMessage),
    /// The wait timed out.
    TimedOut,
}

/// What the send loop does next.
#[derive(Debug)]
pub enum SendStep {
    /// Wait again.
    Continue,
    /// Write the whole text to the connection, and report how that went.
    Write(String),
    /// Leave the loop.
    Exit,
}

/// The send loop of an engine.
#[derive(Debug)]
pub struct SendLoop {
    pub exited: bool,
}

impl SendLoop {
    /// A loop that has sent nothing yet.
    pub fn new() -> (send: SendLoop)
        ensures
            !send.exited,
    {
        SendLoop { exited: false }
    }

    /// Takes the outcome of a wait, and says what to do next. `shutdown` is
    /// whether shutdown was asked for when the wait returned.
    ///
    /// A message is put on the wire, with the time of `clock` where it names
    /// none. A timeout makes the loop leave once shutdown was asked for. A
    /// loop that has left does nothing any more.
    pub fn on_outgoing(&mut self, outcome: QueueOutcome, shutdown: bool, clock: &Arc<dyn Clock>)
        -> (step: SendStep)
        ensures
            old(self).exited ==> step is Exit && final(self).exited,
            !old(self).exited ==> match outcome {
                QueueOutcome::Message(message) => {
                    &&& !final(self).exited
                    &&& step matches SendStep::Write(text)
                    &&& exists|now: Seq<u8>| encode_utf8(text@) == #[trigger] encoded(message@, now)
                },
                QueueOutcome::TimedOut => final(self).exited == shutdown && if shutdown {
                    step is Exit
                } else {
                    step is Continue
                },
            },
    {
        if self.exited {
            return SendStep::Exit;
        }
        match outcome {
            QueueOutcome::Message(message) => {
                let mut message = message;
                let ghost before = message@;
                let text = message.encode(clock);
                assert(encode_utf8(text@) == encoded(
                    before,
                    crate::field_map::value_of(message@.header, crate::wire::sending_time_tag()),
                ));
                SendStep::Write(text)
            },
            QueueOutcome::TimedOut => {
                if shutdown {
                    self.exited = true;
                    SendStep::Exit
                } else {
                    SendStep::Continue
                }
            },
        }
    }

    /// Takes the outcome of a write, and says what to do next: the loop
    /// leaves when the write failed.
    pub fn on_written(&mut self, written: bool) -> (step: SendStep)
        ensures
            final(self).exited == (old(self).exited || !written),
            if final(self).exited {
                step is Exit
            } else {
                step is Continue
            },
    {
        if self.exited || !written {
            self.exited = true;
            SendStep::Exit
        } else {
            SendStep::Continue
        }
    }
}

} // verus!
