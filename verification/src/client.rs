//! The client: it owns a transport, opens the session on it, and exchanges
//! one request for one response at a time.

use crate::codec::{
    decisive_length, decode_header, encode, lemma_decode_ignores_rest, lemma_header_ignores_rest,
    spec_decode, spec_encode, Packet, PacketView, HEADER_LENGTH, MAX_FRAME_LENGTH,
};
use crate::exchange::{
    after_frame, answer_event, answered, cut_short, frame_event, gained, handshake_failure,
    incomplete, lemma_frame_in_two_reads, lemma_handshake_outcomes, lemma_response_outcomes,
    outcome, read_stall,
    request_failure, scripted_exchange, verdict, write_stall, Exchange,
};
use crate::handshake::{client_guid, init_request, IdentityView, PTPHandshake};
use crate::response::{interpret, PTPError, PTPResult};
use crate::server::{least, ServerView};
use crate::session::{SessionAction, SessionEvent, SessionState};
use crate::transport::Transport;
use crate::wire::{push_u32_le, u32_to_le};
use vstd::prelude::*;

verus! {

/// The friendly name under which this client presents itself.
pub const CLIENT_NAME: &'static str = "Rust PTP/IP";

/// The identity that this client presents to every device.
pub open spec fn client_identity() -> IdentityView {
    IdentityView { guid: client_guid(), name: CLIENT_NAME@ }
}

/// The bytes that end a session: a frame header whose length and type are
/// zero, then a frame header of 0xFF bytes throughout.
pub open spec fn disconnect_sentinel() -> Seq<u8> {
    u32_to_le(0) + u32_to_le(0) + u32_to_le(0xFFFF_FFFF) + u32_to_le(0xFFFF_FFFF)
}

/// The session identifier that a handshake with this result leaves the
/// client with.
pub open spec fn granted_session(result: Result<PTPResult, PTPError>) -> Option<u32> {
    match result {
        Ok(PTPResult::SessionAck { session_id }) => Some(session_id),
        _ => None,
    }
}

/// The scripted device after a client has taken its leave of it: it has
/// the sentinel whole and flushed, unless it would not take it.
pub open spec fn after_farewell(device: ServerView) -> ServerView {
    if device.request_stall() is None {
        device.after_request(disconnect_sentinel()).after_flush()
    } else {
        device.after_request(disconnect_sentinel())
    }
}

/// Whether an answer is awaited in `state`.
pub open spec fn awaits(state: SessionState) -> bool {
    state == SessionState::AwaitingHandshakeAck || state == SessionState::AwaitingResponse
}

/// How the handshake goes with a scripted device.
pub open spec fn scripted_handshake(device: ServerView) -> Exchange {
    scripted_exchange(device, init_request(client_identity()), SessionState::AwaitingHandshakeAck)
}

/// A client as a mathematical value.
pub struct ClientView<T> {
    pub transport: T,
    pub state: SessionState,
    /// The session identifier, once the device has assigned one.
    pub session_id: Option<u32>,
    /// Every byte the transport has taken from this client, in order.
    pub sent: Seq<u8>,
    /// Every byte the transport has handed to this client, in order.
    pub received: Seq<u8>,
}

impl<T> ClientView<T> {
    /// Whether `after` is this client once it has tried to exchange `frame`
    /// for an answer with `result`, the session standing at `awaiting`
    /// meanwhile.
    ///
    /// The transport took the frame or a part of it from the front, and
    /// nothing else. If it did not take all of it, nothing was read, the
    /// transport has failed or closed, and the session is over. If it did,
    /// the bytes read since and the result are as `answered` says.
    pub open spec fn exchanged(
        self,
        after: ClientView<T>,
        frame: Seq<u8>,
        awaiting: SessionState,
        result: Result<PTPResult, PTPError>,
    ) -> bool {
        &&& self.sent.is_prefix_of(after.sent)
        &&& self.received.is_prefix_of(after.received)
        &&& gained(self.sent, after.sent).is_prefix_of(frame)
        &&& if gained(self.sent, after.sent) == frame {
            answered(awaiting, gained(self.received, after.received), result, after.state)
        } else {
            &&& after.received == self.received
            &&& after.state == SessionState::Disconnected
            &&& result == Err::<PTPResult, PTPError>(PTPError::IoError) || result == Err::<
                PTPResult,
                PTPError,
            >(PTPError::ConnectionClosed)
        }
    }
}

impl<T: Transport> ClientView<T> {
    /// Whether `after` and `result` are what the exchange of `frame` comes
    /// to by the script, where this client's transport is a scripted
    /// device. Of any other transport this says nothing.
    pub open spec fn follows_script(
        self,
        after: ClientView<T>,
        frame: Seq<u8>,
        awaiting: SessionState,
        result: Result<PTPResult, PTPError>,
    ) -> bool {
        self.transport.scripted() matches Some(device) ==> {
            &&& after.transport.scripted() == Some(scripted_exchange(device, frame, awaiting).device)
            &&& after.state == scripted_exchange(device, frame, awaiting).state
            &&& result == scripted_exchange(device, frame, awaiting).result
        }
    }

    /// Whether the logs kept from `self` to `after` are true to a scripted
    /// device: what they say was sent is what has arrived in the device's
    /// inbox, and what they say was received is what has left its script.
    /// Of any other transport this says nothing.
    pub open spec fn faithful(self, after: ClientView<T>) -> bool {
        self.transport.scripted() matches Some(before) ==> {
            &&& after.transport.scripted() matches Some(device)
            &&& device.inbox == before.inbox + gained(self.sent, after.sent)
            &&& before.unsent() == gained(self.received, after.received) + device.unsent()
        }
    }
}

/// A device that owes nothing may still send as much once a request has
/// arrived whole as it might before: the next reply is owed instead of to
/// come.
pub proof fn lemma_answers_keeps_unsent(device: ServerView)
    requires
        device.owed.len() == 0,
    ensures
        device.answers().unsent() == device.unsent(),
{
    if device.replies.len() > 0 {
        assert(device.replies.skip(1) =~= device.replies.drop_first());
        assert(device.owed + device.replies.flatten() =~= device.replies.flatten());
    }
}

/// Logs that are true to a scripted device over two stretches are true to
/// it over both together.
pub proof fn lemma_faithful_adds_up<T: Transport>(
    first: ClientView<T>,
    second: ClientView<T>,
    third: ClientView<T>,
)
    requires
        first.sent.is_prefix_of(second.sent),
        second.sent.is_prefix_of(third.sent),
        first.received.is_prefix_of(second.received),
        second.received.is_prefix_of(third.received),
        first.faithful(second),
        second.faithful(third),
    ensures
        first.faithful(third),
{
    assert(gained(first.sent, third.sent) =~= gained(first.sent, second.sent) + gained(
        second.sent,
        third.sent,
    ));
    assert(gained(first.received, third.received) =~= gained(first.received, second.received)
        + gained(second.received, third.received));
    if let Some(before) = first.transport.scripted() {
        let device = third.transport.scripted()->Some_0;
        assert(device.inbox =~= before.inbox + gained(first.sent, third.sent));
        assert(before.unsent() =~= gained(first.received, third.received) + device.unsent());
    }
}

/// A PTP/IP client on the transport `T`.
pub struct PTPClient<T: Transport> {
    transport: T,
    state: SessionState,
    session_id: Option<u32>,
    sent: Ghost<Seq<u8>>,
    received: Ghost<Seq<u8>>,
}

impl<T: Transport> View for PTPClient<T> {
    type V = ClientView<T>;

    closed spec fn view(&self) -> ClientView<T> {
        ClientView {
            transport: self.transport,
            state: self.state,
            session_id: self.session_id,
            sent: self.sent@,
            received: self.received@,
        }
    }
}

impl<T: Transport> PTPClient<T> {
    /// Takes ownership of `transport` and opens the session on it at once.
    /// There is a client only if the handshake ends in `Connected`; on any
    /// failure the transport is dropped with the error.
    pub fn new(transport: T) -> (result: Result<Self, PTPError>)
        ensures
            match result {
                Ok(client) => {
                    &&& client@.state == SessionState::Connected
                    &&& client@.sent == init_request(client_identity())
                    &&& !incomplete(client@.received)
                    &&& verdict(SessionState::AwaitingHandshakeAck, client@.received) is Ok
                    &&& client@.session_id == granted_session(
                        verdict(SessionState::AwaitingHandshakeAck, client@.received),
                    )
                },
                Err(e) => handshake_failure(e),
            },
            transport.scripted() matches Some(device) ==> match result {
                Ok(client) => {
                    &&& scripted_handshake(device).result is Ok
                    &&& client@.transport.scripted() == Some(scripted_handshake(device).device)
                },
                Err(e) => scripted_handshake(device).result == Err::<PTPResult, PTPError>(e),
            },
    {
        let mut inner = PTPClient::with_transport(transport);
        let ghost fresh = inner@;
        match inner.handshake() {
            Ok(_) => {
                proof {
                    let incoming = gained(fresh.received, inner@.received);
                    assert(inner@.sent =~= gained(fresh.sent, inner@.sent));
                    assert(inner@.received =~= incoming);
                    lemma_handshake_outcomes(incoming);
                }
                Ok(inner)
            },
            Err(e) => {
                proof {
                    let incoming = gained(fresh.received, inner@.received);
                    if !incomplete(incoming) {
                        lemma_handshake_outcomes(incoming);
                    }
                }
                Err(e)
            },
        }
    }

    /// Takes `transport` without speaking on it: the session is `Initial`.
    pub fn with_transport(transport: T) -> (client: Self)
        ensures
            client@ == (ClientView {
                transport,
                state: SessionState::Initial,
                session_id: None,
                sent: Seq::empty(),
                received: Seq::empty(),
            }),
    {
        PTPClient {
            transport,
            state: SessionState::Initial,
            session_id: None,
            sent: Ghost(Seq::empty()),
            received: Ghost(Seq::empty()),
        }
    }

    /// Opens the session: sends the init command request under this
    /// client's identity and awaits the device's answer.
    ///
    /// Only a session that is `Initial` can be opened. From any other state
    /// the call is turned down with `NotConnected` and nothing is touched.
    pub fn handshake(&mut self) -> (result: Result<PTPResult, PTPError>)
        ensures
            old(self)@.state != SessionState::Initial ==> result == Err::<PTPResult, PTPError>(
                PTPError::NotConnected,
            ) && final(self)@ == old(self)@,
            old(self)@.state == SessionState::Initial ==> {
                &&& old(self)@.exchanged(
                    final(self)@,
                    init_request(client_identity()),
                    SessionState::AwaitingHandshakeAck,
                    result,
                )
                &&& final(self)@.session_id == granted_session(result)
                &&& old(self)@.faithful(final(self)@)
                &&& result is Ok ==> final(self)@.state == SessionState::Connected
                &&& result matches Err(e) ==> handshake_failure(e) && final(self)@.state
                    == SessionState::Disconnected
                &&& old(self)@.follows_script(
                    final(self)@,
                    init_request(client_identity()),
                    SessionState::AwaitingHandshakeAck,
                    result,
                )
            },
    {
        let (next, action) = self.state.step(SessionEvent::SendInit);
        match action {
            SessionAction::Send => {},
            SessionAction::Fail(e) => {
                return Err(e);
            },
            _ => {
                return Err(PTPError::NotConnected);
            },
        }
        self.state = next;
        self.session_id = None;
        let request = PTPHandshake::new(CLIENT_NAME).to_u8();
        let response = self.exchange(request.as_slice());
        if let Ok(PTPResult::SessionAck { session_id }) = response {
            self.session_id = Some(session_id);
        }
        proof {
            let incoming = gained(old(self)@.received, self@.received);
            if !incomplete(incoming) {
                lemma_handshake_outcomes(incoming);
            }
        }
        response
    }

    /// Sends `payload` in a frame of type `packet_type` and awaits the
    /// operation response.
    ///
    /// Only a `Connected` session takes requests. From any other state the
    /// call is turned down with `NotConnected` and nothing is touched.
    pub fn send_request(&mut self, packet_type: u32, payload: &[u8]) -> (result: Result<
        PTPResult,
        PTPError,
    >)
        requires
            HEADER_LENGTH + payload@.len() <= u32::MAX,
        ensures
            old(self)@.state != SessionState::Connected ==> result == Err::<PTPResult, PTPError>(
                PTPError::NotConnected,
            ) && final(self)@ == old(self)@,
            old(self)@.state == SessionState::Connected ==> {
                &&& old(self)@.exchanged(
                    final(self)@,
                    spec_encode(packet_type, payload@),
                    SessionState::AwaitingResponse,
                    result,
                )
                &&& final(self)@.session_id == old(self)@.session_id
                &&& old(self)@.faithful(final(self)@)
                &&& result is Ok ==> final(self)@.state == SessionState::Connected
                &&& result matches Err(e) ==> request_failure(e) && final(self)@.state
                    == SessionState::Disconnected
                &&& old(self)@.follows_script(
                    final(self)@,
                    spec_encode(packet_type, payload@),
                    SessionState::AwaitingResponse,
                    result,
                )
            },
    {
        let (next, action) = self.state.step(SessionEvent::SendOperation);
        match action {
            SessionAction::Send => {},
            SessionAction::Fail(e) => {
                return Err(e);
            },
            _ => {
                return Err(PTPError::NotConnected);
            },
        }
        self.state = next;
        let frame = encode(packet_type, payload);
        let response = self.exchange(frame.as_slice());
        proof {
            let incoming = gained(old(self)@.received, self@.received);
            if !incomplete(incoming) {
                lemma_response_outcomes(incoming);
            }
        }
        response
    }

    /// Ends the session: sends the disconnect sentinel, as far as the
    /// transport will take it, and moves to `Disconnected` whether or not
    /// that went well. A session that is over already is left as it is.
    pub fn disconnect(&mut self)
        ensures
            final(self)@.state == SessionState::Disconnected,
            final(self)@.received == old(self)@.received,
            final(self)@.session_id == old(self)@.session_id,
            old(self)@.faithful(final(self)@),
            old(self)@.sent.is_prefix_of(final(self)@.sent),
            gained(old(self)@.sent, final(self)@.sent).is_prefix_of(disconnect_sentinel()),
            old(self)@.state == SessionState::Disconnected ==> final(self)@ == old(self)@,
            old(self)@.state != SessionState::Disconnected ==> (old(self)@.transport.scripted()
                matches Some(device) ==> final(self)@.transport.scripted() == Some(
                after_farewell(device),
            )),
    {
        let (next, action) = self.state.step(SessionEvent::Close);
        self.state = next;
        match action {
            SessionAction::SendFarewell => {
                let mut sentinel: Vec<u8> = Vec::with_capacity(2 * HEADER_LENGTH);
                push_u32_le(&mut sentinel, 0);
                push_u32_le(&mut sentinel, 0);
                push_u32_le(&mut sentinel, 0xFFFF_FFFF);
                push_u32_le(&mut sentinel, 0xFFFF_FFFF);
                assert(sentinel@ =~= disconnect_sentinel());
                match self.write_all(sentinel.as_slice()) {
                    Ok(()) => {
                        let _ = self.transport.flush();
                        assert(gained(old(self)@.sent, self@.sent) =~= sentinel@);
                    },
                    Err(_) => {},
                }
            },
            _ => {
                assert(gained(old(self)@.sent, self@.sent) =~= Seq::<u8>::empty());
            },
        }
    }

    /// Where the session stands.
    pub fn state(&self) -> (state: SessionState)
        ensures
            state == self@.state,
    {
        self.state
    }

    /// The session identifier that the device assigned, if it assigned one.
    pub fn session_id(&self) -> (session_id: Option<u32>)
        ensures
            session_id == self@.session_id,
    {
        self.session_id
    }

    /// The transport, for a look at it.
    pub fn transport(&self) -> (transport: &T)
        ensures
            *transport == self@.transport,
    {
        &self.transport
    }

    /// Gives the transport back and the client up.
    pub fn into_transport(self) -> (transport: T)
        ensures
            transport == self@.transport,
    {
        self.transport
    }

    /// Sends `frame` whole, then awaits the answer. A failure of the
    /// transport on the way out ends the session.
    fn exchange(&mut self, frame: &[u8]) -> (result: Result<PTPResult, PTPError>)
        requires
            old(self)@.state == SessionState::AwaitingHandshakeAck || old(self)@.state
                == SessionState::AwaitingResponse,
            frame@.len() > 0,
        ensures
            final(self)@.session_id == old(self)@.session_id,
            old(self)@.faithful(final(self)@),
            old(self)@.exchanged(final(self)@, frame@, old(self)@.state, result),
            old(self)@.follows_script(final(self)@, frame@, old(self)@.state, result),
    {
        let written = match self.write_all(frame) {
            Ok(()) => match self.transport.flush() {
                Ok(()) => Ok(()),
                Err(_) => Err(SessionEvent::Fault(PTPError::IoError)),
            },
            Err(event) => Err(event),
        };
        assert(gained(old(self)@.received, self@.received) =~= Seq::<u8>::empty());
        match written {
            Ok(()) => {
                assert(gained(old(self)@.sent, self@.sent) =~= frame@);
                self.recieve_response()
            },
            Err(event) => self.settle(event),
        }
    }

    /// Awaits the device's answer and lets the session state decide what it
    /// means.
    ///
    /// An answer can be awaited only while a request is out. In any other
    /// state the call is turned down with `NotConnected` and nothing is
    /// touched.
    pub fn recieve_response(&mut self) -> (result: Result<PTPResult, PTPError>)
        ensures
            !awaits(old(self)@.state) ==> result == Err::<PTPResult, PTPError>(
                PTPError::NotConnected,
            ) && final(self)@ == old(self)@,
            awaits(old(self)@.state) ==> {
                &&& final(self)@.session_id == old(self)@.session_id
                &&& final(self)@.sent == old(self)@.sent
                &&& old(self)@.faithful(final(self)@)
                &&& old(self)@.received.is_prefix_of(final(self)@.received)
                &&& answered(
                    old(self)@.state,
                    gained(old(self)@.received, final(self)@.received),
                    result,
                    final(self)@.state,
                )
                &&& old(self)@.transport.scripted() matches Some(device) ==> {
                    &&& final(self)@.transport.scripted() == Some(after_frame(device))
                    &&& final(self)@.state == old(self)@.state.next(frame_event(device))
                    &&& result == outcome(old(self)@.state.action(frame_event(device)))
                }
            },
    {
        match self.state {
            SessionState::AwaitingHandshakeAck | SessionState::AwaitingResponse => {},
            _ => {
                return Err(PTPError::NotConnected);
            },
        }
        let event = match self.read_frame() {
            Ok(packet) => SessionEvent::Frame { kind: packet.kind(), decoded: interpret(&packet) },
            Err(event) => event,
        };
        proof {
            if let Some(device) = old(self)@.transport.scripted() {
                lemma_decode_ignores_rest(device.forthcoming(), MAX_FRAME_LENGTH);
            }
        }
        self.settle(event)
    }

    /// Lets the session state machine take `event`, and turns what it
    /// orders into the caller's result.
    fn settle(&mut self, event: SessionEvent) -> (result: Result<PTPResult, PTPError>)
        ensures
            final(self)@ == (ClientView { state: old(self)@.state.next(event), ..old(self)@ }),
            result == outcome(old(self)@.state.action(event)),
    {
        let (next, action) = self.state.step(event);
        self.state = next;
        match action {
            SessionAction::Deliver(result) => Ok(result),
            SessionAction::Fail(e) => Err(e),
            _ => Err(PTPError::InvalidResponseState),
        }
    }

    /// Reads one frame: the header, then as many further bytes as the header
    /// declares. A declared length that leaves no payload, or that exceeds
    /// `MAX_FRAME_LENGTH`, ends the reading after the header.
    #[verifier::rlimit(50)]
    fn read_frame(&mut self) -> (result: Result<Packet, SessionEvent>)
        ensures
            final(self)@.state == old(self)@.state,
            final(self)@.session_id == old(self)@.session_id,
            final(self)@.sent == old(self)@.sent,
            old(self)@.faithful(final(self)@),
            old(self)@.received.is_prefix_of(final(self)@.received),
            match result {
                Ok(packet) => {
                    &&& packet.wf()
                    &&& spec_decode(
                        gained(old(self)@.received, final(self)@.received),
                        MAX_FRAME_LENGTH,
                    ) == Ok::<PacketView, PTPError>(packet@)
                    &&& gained(old(self)@.received, final(self)@.received).len() == packet.length
                },
                Err(event) => if incomplete(gained(old(self)@.received, final(self)@.received)) {
                    cut_short(event)
                } else {
                    event == answer_event(gained(old(self)@.received, final(self)@.received))
                },
            },
            old(self)@.transport.scripted() matches Some(device) ==> {
                &&& final(self)@.transport.scripted() == Some(after_frame(device))
                &&& gained(old(self)@.received, final(self)@.received)
                    == device.forthcoming().take(
                    decisive_length(device.forthcoming(), MAX_FRAME_LENGTH) as int,
                )
                &&& result matches Err(event) ==> event == frame_event(device)
            },
    {
        proof {
            if let Some(device) = old(self)@.transport.scripted() {
                lemma_frame_in_two_reads(device);
            }
        }
        let header = match self.read_exact(HEADER_LENGTH) {
            Ok(header) => header,
            Err(event) => {
                return Err(event);
            },
        };
        assert(gained(old(self)@.received, self@.received) =~= header@);
        let (length, packet_type): (u32, u32) = match decode_header(
            header.as_slice(),
            MAX_FRAME_LENGTH,
        ) {
            Ok(fields) => fields,
            Err(e) => {
                return Err(SessionEvent::Fault(e));
            },
        };
        let ghost midway = self@;
        let payload = match self.read_exact(length as usize - HEADER_LENGTH) {
            Ok(payload) => payload,
            Err(event) => {
                proof {
                    lemma_faithful_adds_up(old(self)@, midway, self@);
                    let part = gained(midway.received, self@.received);
                    assert(gained(old(self)@.received, self@.received) =~= header@ + part);
                    lemma_header_ignores_rest(header@, part, MAX_FRAME_LENGTH);
                    if let Some(device) = old(self)@.transport.scripted() {
                        let stream = device.forthcoming();
                        assert(header@ =~= stream.take(HEADER_LENGTH as int));
                        assert(part =~= stream.skip(HEADER_LENGTH as int));
                        assert(header@ + part =~= stream.take(stream.len() as int));
                    }
                }
                return Err(event);
            },
        };
        proof {
            lemma_faithful_adds_up(old(self)@, midway, self@);
            assert(gained(old(self)@.received, self@.received) =~= header@ + payload@);
            lemma_header_ignores_rest(header@, payload@, MAX_FRAME_LENGTH);
            assert((header@ + payload@).subrange(HEADER_LENGTH as int, length as int)
                =~= payload@);
            if let Some(device) = old(self)@.transport.scripted() {
                let stream = device.forthcoming();
                assert(gained(midway.received, self@.received) =~= payload@);
                assert(header@ =~= stream.take(HEADER_LENGTH as int));
                assert(payload@ =~= stream.skip(HEADER_LENGTH as int).take(length - HEADER_LENGTH));
                assert(header@ + payload@ =~= stream.take(length as int));
            }
        }
        Ok(Packet { length, packet_type, payload })
    }

    /// Reads exactly `count` bytes, however few the transport hands over at
    /// a time. A read that hands over nothing means the peer has closed the
    /// stream.
    fn read_exact(&mut self, count: usize) -> (result: Result<Vec<u8>, SessionEvent>)
        requires
            count > 0,
        ensures
            final(self)@.state == old(self)@.state,
            final(self)@.session_id == old(self)@.session_id,
            final(self)@.sent == old(self)@.sent,
            old(self)@.faithful(final(self)@),
            match result {
                Ok(bytes) => bytes@.len() == count && final(self)@.received == old(self)@.received
                    + bytes@,
                Err(event) => {
                    &&& cut_short(event)
                    &&& old(self)@.received.is_prefix_of(final(self)@.received)
                    &&& gained(old(self)@.received, final(self)@.received).len() < count
                },
            },
            old(self)@.transport.scripted() matches Some(device) ==> {
                &&& final(self)@.transport.scripted() == Some(device.after_reading(count as nat))
                &&& gained(old(self)@.received, final(self)@.received)
                    == device.forthcoming().take(
                    least(count as nat, device.forthcoming().len()) as int,
                )
                &&& result matches Err(event) ==> event == read_stall(device)
                &&& result is Ok <==> device.forthcoming().len() >= count
            },
    {
        let mut bytes: Vec<u8> = vec![0u8; count];
        let mut filled: usize = 0;
        assert(self.received@ =~= old(self).received@ + bytes@.take(0));
        while filled < count
            invariant
                filled <= count,
                bytes@.len() == count,
                self.state == old(self).state,
                self.session_id == old(self).session_id,
                self.sent@ == old(self).sent@,
                self.received@ == old(self).received@ + bytes@.take(filled as int),
                old(self).transport.scripted() matches Some(device) ==> {
                    &&& filled <= device.forthcoming().len()
                    &&& bytes@.take(filled as int) == device.forthcoming().take(filled as int)
                    &&& self.transport.scripted() == Some(
                        if filled == 0 {
                            device
                        } else {
                            ServerView { owed: device.owed.skip(filled as int), ..device.noted() }
                        },
                    )
                },
            decreases count - filled,
        {
            let ghost had = bytes@;
            let (_, window) = bytes.as_mut_slice().split_at_mut(filled);
            let got = self.transport.read(window);
            assert(bytes@.take(filled as int) =~= had.take(filled as int));
            let n: usize = match SessionEvent::from_read(got) {
                Ok(n) => n,
                Err(event) => {
                    proof {
                        assert(gained(old(self)@.received, self@.received) =~= bytes@.take(
                            filled as int,
                        ));
                        if let Some(device) = old(self).transport.scripted() {
                            let stream = device.forthcoming();
                            assert(gained(old(self)@.sent, self@.sent) =~= Seq::<u8>::empty());
                            assert(device.inbox + Seq::<u8>::empty() =~= device.inbox);
                            assert(filled == stream.len());
                            assert(stream.take(filled as int) =~= stream);
                            assert(device.owed =~= stream + device.owed.skip(filled as int));
                            assert(self.transport.scripted() == Some(
                                device.after_reading(count as nat),
                            ));
                            assert(device.unsent() =~= stream + device.after_reading(
                                count as nat,
                            ).unsent());
                        }
                    }
                    return Err(event);
                },
            };
            proof {
                self.received = Ghost(self.received@ + bytes@.subrange(filled as int, filled + n));
                assert(self.received@ =~= old(self).received@ + bytes@.take(filled + n));
                if let Some(device) = old(self).transport.scripted() {
                    let current = if filled == 0 {
                        device
                    } else {
                        ServerView { owed: device.owed.skip(filled as int), ..device.noted() }
                    };
                    assert(current.owed =~= device.owed.skip(filled as int));
                    assert(bytes@.take(filled + n) =~= device.forthcoming().take(filled + n));
                    assert(current.owed.skip(n as int) =~= device.owed.skip(filled + n));
                }
            }
            filled = filled + n;
        }
        assert(bytes@.take(filled as int) =~= bytes@);
        assert(gained(old(self)@.received, self@.received) =~= bytes@);
        proof {
            if let Some(device) = old(self).transport.scripted() {
                assert(gained(old(self)@.sent, self@.sent) =~= Seq::<u8>::empty());
                assert(device.inbox + Seq::<u8>::empty() =~= device.inbox);
                assert(device.owed =~= device.owed.take(count as int) + device.owed.skip(
                    count as int,
                ));
                assert(device.unsent() =~= bytes@ + device.after_reading(count as nat).unsent());
            }
        }
        Ok(bytes)
    }

    /// Writes all of `bytes`, however few the transport takes at a time.
    /// A write that takes nothing means the peer has closed the stream.
    fn write_all(&mut self, bytes: &[u8]) -> (result: Result<(), SessionEvent>)
        requires
            bytes@.len() > 0,
        ensures
            final(self)@.state == old(self)@.state,
            final(self)@.session_id == old(self)@.session_id,
            final(self)@.received == old(self)@.received,
            old(self)@.faithful(final(self)@),
            match result {
                Ok(()) => final(self)@.sent == old(self)@.sent + bytes@,
                Err(event) => {
                    &&& event == SessionEvent::Fault(PTPError::IoError) || event
                        == SessionEvent::Fault(PTPError::ConnectionClosed)
                    &&& old(self)@.sent.is_prefix_of(final(self)@.sent)
                    &&& gained(old(self)@.sent, final(self)@.sent).is_prefix_of(bytes@)
                    &&& gained(old(self)@.sent, final(self)@.sent) != bytes@
                },
            },
            old(self)@.transport.scripted() matches Some(device) ==> {
                &&& final(self)@.transport.scripted() == Some(device.after_request(bytes@))
                &&& result == (match device.request_stall() {
                    Some(outcome) => Err::<(), SessionEvent>(write_stall(outcome)),
                    None => Ok::<(), SessionEvent>(()),
                })
            },
    {
        let mut done: usize = 0;
        assert(self.sent@ =~= old(self).sent@ + bytes@.take(0));
        proof {
            if let Some(device) = old(self).transport.scripted() {
                assert(device.inbox + bytes@.take(0) =~= device.inbox);
            }
        }
        while done < bytes.len()
            invariant
                done <= bytes@.len(),
                bytes@.len() > 0,
                self.state == old(self).state,
                self.session_id == old(self).session_id,
                self.received@ == old(self).received@,
                self.sent@ == old(self).sent@ + bytes@.take(done as int),
                old(self).transport.scripted() matches Some(device) ==> {
                    &&& device.request_stall() is Some ==> done == 0
                    &&& self.transport.scripted() == Some(
                        if device.request_stall() is Some {
                            device
                        } else if done < bytes@.len() {
                            ServerView { inbox: device.inbox + bytes@.take(done as int), ..device }
                        } else {
                            device.after_request(bytes@)
                        },
                    )
                },
            decreases bytes@.len() - done,
        {
            let ghost rest = bytes@.subrange(done as int, bytes@.len() as int);
            let taken = self.transport.write(&bytes[done..bytes.len()]);
            let n: usize = match SessionEvent::from_write(taken) {
                Ok(n) => n,
                Err(event) => {
                    proof {
                        assert(gained(old(self)@.sent, self@.sent) =~= bytes@.take(done as int));
                        assert(gained(old(self)@.received, self@.received) =~= Seq::<u8>::empty());
                        if let Some(device) = old(self).transport.scripted() {
                            assert(device.inbox + bytes@.take(0) =~= device.inbox);
                            assert(Seq::<u8>::empty() + device.unsent() =~= device.unsent());
                        }
                    }
                    return Err(event);
                },
            };
            proof {
                self.sent = Ghost(self.sent@ + bytes@.subrange(done as int, done + n));
                assert(self.sent@ =~= old(self).sent@ + bytes@.take(done + n));
                if let Some(device) = old(self).transport.scripted() {
                    assert(bytes@.take(done as int) + rest.take(n as int) =~= bytes@.take(done + n));
                    assert(device.inbox + bytes@.take(done as int) + rest.take(n as int)
                        =~= device.inbox + bytes@.take(done + n));
                    if done + n == bytes@.len() {
                        assert(bytes@.take(done + n) =~= bytes@);
                    }
                }
            }
            done = done + n;
        }
        assert(bytes@.take(done as int) =~= bytes@);
        proof {
            assert(gained(old(self)@.sent, self@.sent) =~= bytes@);
            assert(gained(old(self)@.received, self@.received) =~= Seq::<u8>::empty());
            if let Some(device) = old(self).transport.scripted() {
                lemma_answers_keeps_unsent(ServerView { inbox: device.inbox + bytes@, ..device });
                assert(Seq::<u8>::empty() + device.unsent() =~= device.unsent());
            }
        }
        Ok(())
    }
}

} // verus!
