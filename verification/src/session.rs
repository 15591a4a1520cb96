//! The session state machine: which step is legal in which state, and what
//! each event leads to. Pure data and one transition function; no transport
//! is touched here.

use crate::codec::PacketType;
use crate::response::{PTPError, PTPResponseCode, PTPResult};
use crate::transport::IoError;
use vstd::prelude::*;

verus! {

/// Where a session stands.
#[derive(Debug, PartialEq, Eq, Clone, Copy, Structural)]
pub enum SessionState {
    /// Nothing has been said yet.
    Initial,
    /// The init command request is out; the device's answer is awaited.
    AwaitingHandshakeAck,
    /// The session is open and idle.
    Connected,
    /// An operation request is out; its response is awaited.
    AwaitingResponse,
    /// The session is over. Nothing leads out of this state.
    Disconnected,
}

/// What can happen to a session.
#[derive(Debug, PartialEq, Eq, Clone, Copy)]
pub enum SessionEvent {
    /// The client wants to send the init command request.
    SendInit,
    /// The client wants to send an operation request.
    SendOperation,
    /// A whole frame came in: its kind, and what its payload decoded to.
    Frame { kind: PacketType, decoded: Result<PTPResult, PTPError> },
    /// No frame came in time.
    Timeout,
    /// The exchange broke down with this error before a frame was complete.
    Fault(PTPError),
    /// The client disconnects, or the transport has closed.
    Close,
}

impl SessionEvent {
    /// What a read that came back with `got` means for the session: go on
    /// with the bytes that came, however few; the peer has closed where
    /// none came; a timeout or a fault where the transport said so.
    pub open spec fn spec_from_read(got: Result<usize, IoError>) -> Result<usize, SessionEvent> {
        match got {
            Ok(n) => if n == 0 {
                Err(SessionEvent::Fault(PTPError::ConnectionClosed))
            } else {
                Ok(n)
            },
            Err(IoError::TimedOut) => Err(SessionEvent::Timeout),
            Err(IoError::Failed) => Err(SessionEvent::Fault(PTPError::IoError)),
        }
    }

    /// What a write that came back with `taken` means for the session: go
    /// on after the bytes that were taken, however few; the peer has closed
    /// where none were; a fault where the transport failed in any way.
    pub open spec fn spec_from_write(taken: Result<usize, IoError>) -> Result<usize, SessionEvent> {
        match taken {
            Ok(n) => if n == 0 {
                Err(SessionEvent::Fault(PTPError::ConnectionClosed))
            } else {
                Ok(n)
            },
            Err(_) => Err(SessionEvent::Fault(PTPError::IoError)),
        }
    }

    /// Judges the outcome of a read into a buffer of one byte or more: the
    /// number of bytes to go on with, or the event that ends the reading.
    pub fn from_read(got: Result<usize, IoError>) -> (moved: Result<usize, SessionEvent>)
        ensures
            moved == Self::spec_from_read(got),
    {
        match got {
            Ok(0) => Err(SessionEvent::Fault(PTPError::ConnectionClosed)),
            Ok(n) => Ok(n),
            Err(IoError::TimedOut) => Err(SessionEvent::Timeout),
            Err(IoError::Failed) => Err(SessionEvent::Fault(PTPError::IoError)),
        }
    }

    /// Judges the outcome of a write of one byte or more: the number of
    /// bytes to go on after, or the event that ends the writing.
    pub fn from_write(taken: Result<usize, IoError>) -> (moved: Result<usize, SessionEvent>)
        ensures
            moved == Self::spec_from_write(taken),
    {
        match taken {
            Ok(0) => Err(SessionEvent::Fault(PTPError::ConnectionClosed)),
            Ok(n) => Ok(n),
            Err(_) => Err(SessionEvent::Fault(PTPError::IoError)),
        }
    }
}

/// What the client is to do after an event.
#[derive(Debug, PartialEq, Eq, Clone, Copy)]
pub enum SessionAction {
    /// Put the frame on the wire.
    Send,
    /// Hand this result to the caller.
    Deliver(PTPResult),
    /// Hand this error to the caller.
    Fail(PTPError),
    /// Put the disconnect sentinel on the wire.
    SendFarewell,
    /// Nothing is left to do.
    Nothing,
}

impl SessionState {
    /// Whether the device's answer to the init command request opens the
    /// session: an `InitCommandAck` whose payload decoded, or an `InitFail`
    /// status frame whose response code is `Success`.
    pub open spec fn accepts_handshake(kind: PacketType, decoded: Result<PTPResult, PTPError>) -> bool {
        match kind {
            PacketType::InitCommandAck => decoded is Ok,
            PacketType::InitFail => decoded == Ok::<PTPResult, PTPError>(
                PTPResult::UintResult4 { result: PTPResponseCode::Success },
            ),
            _ => false,
        }
    }

    /// The error with which an answer that does not open the session is
    /// turned down: the decoding error of a frame that belongs to the
    /// handshake, `HandshakeError` for a refusal or a frame of any other
    /// kind.
    pub open spec fn handshake_refusal(kind: PacketType, decoded: Result<PTPResult, PTPError>) -> PTPError {
        match (kind, decoded) {
            (PacketType::InitCommandAck, Err(e)) => e,
            (PacketType::InitFail, Err(e)) => e,
            _ => PTPError::HandshakeError,
        }
    }

    /// The error with which a frame is turned down while an operation
    /// response is awaited.
    pub open spec fn response_refusal(kind: PacketType, decoded: Result<PTPResult, PTPError>) -> PTPError {
        match (kind, decoded) {
            (PacketType::OperationResponse, Err(e)) => e,
            (PacketType::Unknown(_), _) => PTPError::UnknownError,
            _ => PTPError::InvalidResponseState,
        }
    }

    /// The state that follows `self` on `event`.
    pub open spec fn next(self, event: SessionEvent) -> SessionState {
        match (self, event) {
            (SessionState::Disconnected, _) => SessionState::Disconnected,
            (SessionState::Initial, SessionEvent::SendInit) => SessionState::AwaitingHandshakeAck,
            (SessionState::Connected, SessionEvent::SendOperation) => SessionState::AwaitingResponse,
            (_, SessionEvent::SendInit) => self,
            (_, SessionEvent::SendOperation) => self,
            (SessionState::AwaitingHandshakeAck, SessionEvent::Frame { kind, decoded }) => {
                if Self::accepts_handshake(kind, decoded) {
                    SessionState::Connected
                } else {
                    SessionState::Disconnected
                }
            },
            (SessionState::AwaitingResponse, SessionEvent::Frame { kind, decoded }) => {
                if kind == PacketType::OperationResponse && decoded is Ok {
                    SessionState::Connected
                } else {
                    SessionState::Disconnected
                }
            },
            _ => SessionState::Disconnected,
        }
    }

    /// What the client is to do when `event` meets state `self`.
    pub open spec fn action(self, event: SessionEvent) -> SessionAction {
        match (self, event) {
            (SessionState::Initial, SessionEvent::SendInit) => SessionAction::Send,
            (SessionState::Connected, SessionEvent::SendOperation) => SessionAction::Send,
            (_, SessionEvent::SendInit) => SessionAction::Fail(PTPError::NotConnected),
            (_, SessionEvent::SendOperation) => SessionAction::Fail(PTPError::NotConnected),
            (SessionState::AwaitingHandshakeAck, SessionEvent::Frame { kind, decoded }) => {
                if Self::accepts_handshake(kind, decoded) {
                    SessionAction::Deliver(decoded->Ok_0)
                } else {
                    SessionAction::Fail(Self::handshake_refusal(kind, decoded))
                }
            },
            (SessionState::AwaitingResponse, SessionEvent::Frame { kind, decoded }) => {
                if kind == PacketType::OperationResponse && decoded is Ok {
                    SessionAction::Deliver(decoded->Ok_0)
                } else {
                    SessionAction::Fail(Self::response_refusal(kind, decoded))
                }
            },
            (_, SessionEvent::Frame { .. }) => SessionAction::Fail(PTPError::InvalidResponseState),
            (_, SessionEvent::Timeout) => SessionAction::Fail(PTPError::InvalidResponseState),
            (_, SessionEvent::Fault(e)) => SessionAction::Fail(e),
            (SessionState::Disconnected, SessionEvent::Close) => SessionAction::Nothing,
            (_, SessionEvent::Close) => SessionAction::SendFarewell,
        }
    }

    /// The transition function: the state that follows, and what to do.
    pub fn step(self, event: SessionEvent) -> (result: (SessionState, SessionAction))
        ensures
            result.0 == self.next(event),
            result.1 == self.action(event),
    {
        match event {
            SessionEvent::SendInit => match self {
                SessionState::Initial => (SessionState::AwaitingHandshakeAck, SessionAction::Send),
                _ => (self, SessionAction::Fail(PTPError::NotConnected)),
            },
            SessionEvent::SendOperation => match self {
                SessionState::Connected => (SessionState::AwaitingResponse, SessionAction::Send),
                _ => (self, SessionAction::Fail(PTPError::NotConnected)),
            },
            SessionEvent::Frame { kind, decoded } => match self {
                SessionState::AwaitingHandshakeAck => match (kind, decoded) {
                    (PacketType::InitCommandAck, Ok(result)) => (
                        SessionState::Connected,
                        SessionAction::Deliver(result),
                    ),
                    (
                        PacketType::InitFail,
                        Ok(PTPResult::UintResult4 { result: PTPResponseCode::Success }),
                    ) => (
                        SessionState::Connected,
                        SessionAction::Deliver(
                            PTPResult::UintResult4 { result: PTPResponseCode::Success },
                        ),
                    ),
                    (PacketType::InitCommandAck, Err(e)) => (
                        SessionState::Disconnected,
                        SessionAction::Fail(e),
                    ),
                    (PacketType::InitFail, Err(e)) => (
                        SessionState::Disconnected,
                        SessionAction::Fail(e),
                    ),
                    _ => (SessionState::Disconnected, SessionAction::Fail(PTPError::HandshakeError)),
                },
                SessionState::AwaitingResponse => match (kind, decoded) {
                    (PacketType::OperationResponse, Ok(result)) => (
                        SessionState::Connected,
                        SessionAction::Deliver(result),
                    ),
                    (PacketType::OperationResponse, Err(e)) => (
                        SessionState::Disconnected,
                        SessionAction::Fail(e),
                    ),
                    (PacketType::Unknown(_), _) => (
                        SessionState::Disconnected,
                        SessionAction::Fail(PTPError::UnknownError),
                    ),
                    _ => (
                        SessionState::Disconnected,
                        SessionAction::Fail(PTPError::InvalidResponseState),
                    ),
                },
                _ => (SessionState::Disconnected, SessionAction::Fail(PTPError::InvalidResponseState)),
            },
            SessionEvent::Timeout => (
                SessionState::Disconnected,
                SessionAction::Fail(PTPError::InvalidResponseState),
            ),
            SessionEvent::Fault(e) => (SessionState::Disconnected, SessionAction::Fail(e)),
            SessionEvent::Close => match self {
                SessionState::Disconnected => (SessionState::Disconnected, SessionAction::Nothing),
                _ => (SessionState::Disconnected, SessionAction::SendFarewell),
            },
        }
    }

    /// `Disconnected` is terminal: no event leads out of it, and none makes
    /// the client send anything.
    pub proof fn lemma_disconnected_is_terminal(event: SessionEvent)
        ensures
            SessionState::Disconnected.next(event) == SessionState::Disconnected,
            SessionState::Disconnected.action(event) != SessionAction::Send,
            SessionState::Disconnected.action(event) != SessionAction::SendFarewell,
            !(SessionState::Disconnected.action(event) is Deliver),
    {
    }

    /// From every state, closing leads to `Disconnected`.
    pub proof fn lemma_close_disconnects(state: SessionState)
        ensures
            state.next(SessionEvent::Close) == SessionState::Disconnected,
    {
    }

    /// A frame may be sent in two situations only: the init command request
    /// from `Initial`, an operation request from `Connected`. Everywhere else
    /// the attempt is turned down with `NotConnected` and the state stays as
    /// it is.
    pub proof fn lemma_send_needs_its_state(state: SessionState, event: SessionEvent)
        requires
            event == SessionEvent::SendInit || event == SessionEvent::SendOperation,
        ensures
            state.action(event) == SessionAction::Send <==> (state == SessionState::Initial && event
                == SessionEvent::SendInit) || (state == SessionState::Connected && event
                == SessionEvent::SendOperation),
            state.action(event) == SessionAction::Send ==> state.next(event) == (if event
                == SessionEvent::SendInit {
                SessionState::AwaitingHandshakeAck
            } else {
                SessionState::AwaitingResponse
            }),
            state.action(event) != SessionAction::Send ==> state.action(event)
                == SessionAction::Fail(PTPError::NotConnected) && state.next(event) == state,
    {
    }

    /// A result is delivered only on the way into `Connected`, and whatever
    /// else happens while an answer is awaited ends the session.
    pub proof fn lemma_answer_connects_or_disconnects(state: SessionState, event: SessionEvent)
        requires
            state == SessionState::AwaitingHandshakeAck || state == SessionState::AwaitingResponse,
            !(event == SessionEvent::SendInit || event == SessionEvent::SendOperation),
        ensures
            state.action(event) is Deliver ==> state.next(event) == SessionState::Connected,
            !(state.action(event) is Deliver) ==> state.next(event) == SessionState::Disconnected,
            state.action(event) is Deliver ==> event is Frame,
    {
    }
}

} // verus!
