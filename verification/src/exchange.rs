//! What one exchange of a frame for an answer comes to: as a function of
//! the bytes that came in, whatever the transport, and as a function of the
//! script, call by call, where the transport is a scripted device.

use crate::codec::{
    decisive_length, lemma_decode_encode, lemma_decode_ignores_rest, lemma_header_ignores_rest,
    spec_decode, spec_decode_header, spec_encode, PacketView, HEADER_LENGTH, MAX_FRAME_LENGTH,
};
use crate::response::{spec_interpret, PTPError, PTPResult};
use crate::server::{least, PTPServerState, ServerView};
use crate::session::{SessionAction, SessionEvent, SessionState};
use crate::transport::IoError;
use vstd::prelude::*;

verus! {

/// What the log `now` holds beyond what it held as `before`.
pub open spec fn gained(before: Seq<u8>, now: Seq<u8>) -> Seq<u8> {
    now.skip(before.len() as int)
}

/// Whether `incoming` stops before the frame it begins is whole.
pub open spec fn incomplete(incoming: Seq<u8>) -> bool {
    spec_decode(incoming, MAX_FRAME_LENGTH) == Err::<PacketView, PTPError>(PTPError::Incomplete)
}

/// The event that the bytes `incoming` amount to: the frame they hold with
/// what its payload decodes to, or the framing error that rules a frame
/// out.
pub open spec fn answer_event(incoming: Seq<u8>) -> SessionEvent {
    match spec_decode(incoming, MAX_FRAME_LENGTH) {
        Ok(packet) => SessionEvent::Frame { kind: packet.kind(), decoded: spec_interpret(packet) },
        Err(e) => SessionEvent::Fault(e),
    }
}

/// What the caller gets when the session state machine orders `action`
/// while an answer is awaited.
pub open spec fn outcome(action: SessionAction) -> Result<PTPResult, PTPError> {
    match action {
        SessionAction::Deliver(result) => Ok(result),
        SessionAction::Fail(e) => Err(e),
        _ => Err(PTPError::InvalidResponseState),
    }
}

/// What a session in `state` makes of the bytes `incoming`: the result it
/// delivers or the error it fails with.
pub open spec fn verdict(state: SessionState, incoming: Seq<u8>) -> Result<PTPResult, PTPError> {
    outcome(state.action(answer_event(incoming)))
}

/// Whether `result` and the state `after` are what a session in `state`
/// comes to when exactly the bytes `incoming` were read for the answer.
///
/// Where the bytes are a whole frame, or a header that rules one out, the
/// session state machine decides, however the bytes were split over reads.
/// Where they stop short, the transport has failed, closed or timed out:
/// the session is over, with the matching error.
pub open spec fn answered(
    state: SessionState,
    incoming: Seq<u8>,
    result: Result<PTPResult, PTPError>,
    after: SessionState,
) -> bool {
    if incomplete(incoming) {
        &&& after == SessionState::Disconnected
        &&& {
            ||| result == Err::<PTPResult, PTPError>(PTPError::IoError)
            ||| result == Err::<PTPResult, PTPError>(PTPError::ConnectionClosed)
            ||| result == Err::<PTPResult, PTPError>(PTPError::InvalidResponseState)
        }
    } else {
        &&& after == state.next(answer_event(incoming))
        &&& result == verdict(state, incoming)
    }
}

/// The events by which the stream ends before a frame is whole: no bytes in
/// time, a failure of the transport, or the peer closing.
pub open spec fn cut_short(event: SessionEvent) -> bool {
    ||| event == SessionEvent::Timeout
    ||| event == SessionEvent::Fault(PTPError::IoError)
    ||| event == SessionEvent::Fault(PTPError::ConnectionClosed)
}

/// The errors with which a handshake can fail once it has begun.
pub open spec fn handshake_failure(e: PTPError) -> bool {
    ||| e == PTPError::HandshakeError
    ||| e == PTPError::InvalidResponseSize
    ||| e == PTPError::ResponseShort
    ||| e == PTPError::OversizedFrame
    ||| e == PTPError::InvalidResponseState
    ||| e == PTPError::IoError
    ||| e == PTPError::ConnectionClosed
}

/// What the answer to the init command request can come to: a result and
/// `Connected`, or one of the handshake's own errors and `Disconnected`.
pub proof fn lemma_handshake_outcomes(incoming: Seq<u8>)
    requires
        !incomplete(incoming),
    ensures
        match verdict(SessionState::AwaitingHandshakeAck, incoming) {
            Ok(_) => SessionState::AwaitingHandshakeAck.next(answer_event(incoming))
                == SessionState::Connected,
            Err(e) => handshake_failure(e) && SessionState::AwaitingHandshakeAck.next(
                answer_event(incoming),
            ) == SessionState::Disconnected,
        },
{
}

/// The errors with which a request can fail once it has been taken up.
pub open spec fn request_failure(e: PTPError) -> bool {
    ||| e == PTPError::UnknownError
    ||| e == PTPError::InvalidResponseSize
    ||| e == PTPError::ResponseShort
    ||| e == PTPError::OversizedFrame
    ||| e == PTPError::InvalidResponseState
    ||| e == PTPError::IoError
    ||| e == PTPError::ConnectionClosed
}

/// What the answer to an operation request can come to: a result and
/// `Connected`, or one of the request's own errors and `Disconnected`.
pub proof fn lemma_response_outcomes(incoming: Seq<u8>)
    requires
        !incomplete(incoming),
    ensures
        match verdict(SessionState::AwaitingResponse, incoming) {
            Ok(_) => SessionState::AwaitingResponse.next(answer_event(incoming))
                == SessionState::Connected,
            Err(e) => request_failure(e) && SessionState::AwaitingResponse.next(
                answer_event(incoming),
            ) == SessionState::Disconnected,
        },
{
}

/// The event that ends a reading at a call that the scripted device cannot
/// serve: the peer closing, a timeout or a fault, as the device's ending
/// says.
pub open spec fn read_stall(device: ServerView) -> SessionEvent {
    match SessionEvent::spec_from_read(device.stalled()) {
        Err(event) => event,
        Ok(_) => SessionEvent::Fault(PTPError::ConnectionClosed),
    }
}

/// The event that ends a writing at a write that returned `outcome` without
/// taking a byte.
pub open spec fn write_stall(outcome: Result<usize, IoError>) -> SessionEvent {
    match SessionEvent::spec_from_write(outcome) {
        Err(event) => event,
        Ok(_) => SessionEvent::Fault(PTPError::ConnectionClosed),
    }
}

/// The event that the reading of one frame from a scripted device ends in:
/// what the frame at the front of the reply owed amounts to, or, where the
/// reply ends before a frame does, what the device's ending says.
pub open spec fn frame_event(device: ServerView) -> SessionEvent {
    if incomplete(device.forthcoming()) {
        read_stall(device)
    } else {
        answer_event(device.forthcoming())
    }
}

/// The device after a client has read one frame from it, or as much of one
/// as there was to read: the decisive bytes are gone from the reply owed,
/// and the device has hung up if they were no whole frame.
pub open spec fn after_frame(device: ServerView) -> ServerView {
    let used = decisive_length(device.forthcoming(), MAX_FRAME_LENGTH) as int;
    if incomplete(device.forthcoming()) {
        ServerView { owed: device.owed.skip(used), ..device.noted().hangs_up() }
    } else {
        ServerView { owed: device.owed.skip(used), ..device.noted() }
    }
}

/// Reading a frame from a scripted device in two goes, the header and then
/// the payload it declares, leaves the device where `after_frame` says, and
/// stops short exactly where the reply owed is no whole frame.
pub proof fn lemma_frame_in_two_reads(device: ServerView)
    ensures
        ({
            let stream = device.forthcoming();
            let later = device.after_reading(HEADER_LENGTH as nat);
            &&& stream.len() < HEADER_LENGTH ==> {
                &&& incomplete(stream)
                &&& decisive_length(stream, MAX_FRAME_LENGTH) == stream.len()
                &&& later == after_frame(device)
            }
            &&& stream.len() >= HEADER_LENGTH ==> {
                &&& later.forthcoming() == stream.skip(HEADER_LENGTH as int)
                &&& read_stall(later) == read_stall(device)
                &&& match spec_decode_header(stream.take(HEADER_LENGTH as int), MAX_FRAME_LENGTH) {
                    Err(e) => {
                        &&& !incomplete(stream)
                        &&& answer_event(stream) == SessionEvent::Fault(e)
                        &&& decisive_length(stream, MAX_FRAME_LENGTH) == HEADER_LENGTH
                        &&& later == after_frame(device)
                    },
                    Ok((length, _)) => {
                        &&& later.after_reading((length - HEADER_LENGTH) as nat) == after_frame(
                            device,
                        )
                        &&& incomplete(stream) <==> stream.len() < length
                        &&& decisive_length(stream, MAX_FRAME_LENGTH) == least(
                            length as nat,
                            stream.len(),
                        )
                    },
                }
            }
        }),
{
    let stream = device.forthcoming();
    let later = device.after_reading(HEADER_LENGTH as nat);
    if stream.len() < HEADER_LENGTH {
        assert(later =~= after_frame(device));
    } else {
        let header = stream.take(HEADER_LENGTH as int);
        assert(stream =~= header + stream.skip(HEADER_LENGTH as int));
        lemma_header_ignores_rest(header, stream.skip(HEADER_LENGTH as int), MAX_FRAME_LENGTH);
        assert(later.forthcoming() =~= stream.skip(HEADER_LENGTH as int));
        match spec_decode_header(header, MAX_FRAME_LENGTH) {
            Err(e) => {
                assert(later =~= after_frame(device));
            },
            Ok((length, _)) => {
                let used = least(length as nat, stream.len()) as int;
                assert(later.owed.skip(used - HEADER_LENGTH) =~= device.owed.skip(used));
                assert(later.after_reading((length - HEADER_LENGTH) as nat) =~= after_frame(
                    device,
                ));
            },
        }
    }
}

/// How an exchange has ended.
pub struct Exchange {
    /// The scripted device afterwards.
    pub device: ServerView,
    /// The session state afterwards.
    pub state: SessionState,
    /// What the caller got.
    pub result: Result<PTPResult, PTPError>,
}

/// An exchange that `event` has ended, with the device as it then stood.
pub open spec fn ended(device: ServerView, awaiting: SessionState, event: SessionEvent) -> Exchange {
    Exchange { device, state: awaiting.next(event), result: outcome(awaiting.action(event)) }
}

/// How the exchange of the non-empty `frame` for an answer goes with a
/// scripted device, the session standing at `awaiting` meanwhile.
///
/// The frame is written until the device has it whole, however few bytes
/// the device takes per write; a write that takes nothing ends the
/// exchange. Then the device is flushed; a flush that fails ends the
/// exchange with `IoError`. Then one frame is read, however few bytes the
/// device delivers per read, and the session state machine decides.
pub open spec fn scripted_exchange(device: ServerView, frame: Seq<u8>, awaiting: SessionState) -> Exchange {
    match device.request_stall() {
        Some(outcome) => ended(device.after_request(frame), awaiting, write_stall(outcome)),
        None => {
            let heard = device.after_request(frame);
            if heard.flush_outcome() is Err {
                ended(heard, awaiting, SessionEvent::Fault(PTPError::IoError))
            } else {
                ended(
                    after_frame(heard.after_flush()),
                    awaiting,
                    frame_event(heard.after_flush()),
                )
            }
        },
    }
}

/// How few bytes a scripted device delivers per read, and how few it takes
/// per write, makes no difference to the exchange, as long as it moves
/// any: the frames go whole both ways and the result is the same.
pub proof fn lemma_transfer_sizes_are_immaterial(
    device: ServerView,
    chunk: nat,
    gulp: nat,
    frame: Seq<u8>,
    awaiting: SessionState,
)
    requires
        device.chunk > 0,
        device.gulp > 0,
        chunk > 0,
        gulp > 0,
    ensures
        scripted_exchange(ServerView { chunk, gulp, ..device }, frame, awaiting) == (Exchange {
            device: ServerView {
                chunk,
                gulp,
                ..scripted_exchange(device, frame, awaiting).device
            },
            ..scripted_exchange(device, frame, awaiting)
        }),
{
    let other = ServerView { chunk, gulp, ..device };
    assert(other.after_request(frame) =~= (ServerView {
        chunk,
        gulp,
        ..device.after_request(frame)
    }));
    if device.request_stall() is None {
        let heard = device.after_request(frame).after_flush();
        let other_heard = other.after_request(frame).after_flush();
        assert(other_heard =~= (ServerView { chunk, gulp, ..heard }));
        assert(other_heard.forthcoming() =~= heard.forthcoming());
        assert(after_frame(other_heard) =~= (ServerView { chunk, gulp, ..after_frame(heard) }));
    }
}

/// A frame with which a scripted device answers a request is decoded for
/// what it is, however the device splits it over reads and however it took
/// the request: the client gets what the session state machine makes of
/// the frame's kind and payload. The device has the request whole and
/// flushed before it was first read from, and owes nothing more.
pub proof fn lemma_scripted_frame_is_decoded(
    device: ServerView,
    request: Seq<u8>,
    awaiting: SessionState,
    packet_type: u32,
    payload: Seq<u8>,
)
    requires
        device.state() == PTPServerState::Listening,
        device.chunk > 0,
        device.gulp > 0,
        request.len() > 0,
        payload.len() > 0,
        HEADER_LENGTH + payload.len() <= MAX_FRAME_LENGTH,
        device.replies.len() > 0,
        device.replies[0] == spec_encode(packet_type, payload),
    ensures
        ({
            let packet = PacketView {
                length: (HEADER_LENGTH + payload.len()) as u32,
                packet_type,
                payload,
            };
            let event = SessionEvent::Frame { kind: packet.kind(), decoded: spec_interpret(packet) };
            let exchange = scripted_exchange(device, request, awaiting);
            &&& exchange.result == outcome(awaiting.action(event))
            &&& exchange.state == awaiting.next(event)
            &&& exchange.device == (ServerView {
                owed: Seq::empty(),
                replies: device.replies.skip(1),
                inbox: device.inbox + request,
                flushed: (device.inbox + request).len(),
                ..device
            })
        }),
{
    let frame = spec_encode(packet_type, payload);
    lemma_decode_encode(packet_type, payload, MAX_FRAME_LENGTH);
    lemma_decode_ignores_rest(frame, MAX_FRAME_LENGTH);
    let heard = device.after_request(request).after_flush();
    assert(heard.forthcoming() =~= frame);
    assert(frame.skip(frame.len() as int) =~= Seq::<u8>::empty());
    assert(scripted_exchange(device, request, awaiting).device =~= (ServerView {
        owed: Seq::empty(),
        replies: device.replies.skip(1),
        inbox: device.inbox + request,
        flushed: (device.inbox + request).len(),
        ..device
    }));
}

} // verus!
