//! The PTP/IP frame: a little-endian length, a little-endian type tag, then
//! the payload. Pure functions from bytes to frames and back.

use crate::response::PTPError;
use crate::wire::{lemma_u32_le_round_trip, push_u32_le, read_u32_le, u32_from_le, u32_to_le};
use vstd::prelude::*;

verus! {

/// Bytes taken by the length and type fields at the head of every frame.
pub const HEADER_LENGTH: usize = 8;

/// The longest frame this client accepts from a device unless told otherwise.
pub const MAX_FRAME_LENGTH: u32 = 0x0010_0000;

/// The client opens the command channel and names itself.
pub const TAG_INIT_COMMAND_REQUEST: u32 = 1;

/// The device accepts the command channel and assigns a session.
pub const TAG_INIT_COMMAND_ACK: u32 = 2;

/// The client opens the event channel.
pub const TAG_INIT_EVENT_REQUEST: u32 = 3;

/// The device accepts the event channel.
pub const TAG_INIT_EVENT_ACK: u32 = 4;

/// The device reports on an initiation with a response code.
pub const TAG_INIT_FAIL: u32 = 5;

/// The client asks for an operation.
pub const TAG_OPERATION_REQUEST: u32 = 6;

/// The device reports on an operation with a response code.
pub const TAG_OPERATION_RESPONSE: u32 = 7;

/// The device reports an event.
pub const TAG_EVENT: u32 = 8;

/// A data transfer begins.
pub const TAG_START_DATA_PACKET: u32 = 9;

/// A data transfer ends.
pub const TAG_END_DATA_PACKET: u32 = 12;

/// The kinds of frame this client knows by their type tag.
#[derive(Debug, PartialEq, Eq, Clone, Copy, Structural)]
pub enum PacketType {
    InitCommandRequest,
    InitCommandAck,
    InitEventRequest,
    InitEventAck,
    InitFail,
    OperationRequest,
    OperationResponse,
    EventEvent,
    StartDataPacket,
    EndDataPacket,
    /// A tag outside the catalogue, kept as it came off the wire.
    Unknown(u32),
}

impl PacketType {
    /// The kind of frame that the type tag `tag` announces.
    pub open spec fn of_tag(tag: u32) -> PacketType {
        if tag == TAG_INIT_COMMAND_REQUEST {
            PacketType::InitCommandRequest
        } else if tag == TAG_INIT_COMMAND_ACK {
            PacketType::InitCommandAck
        } else if tag == TAG_INIT_EVENT_REQUEST {
            PacketType::InitEventRequest
        } else if tag == TAG_INIT_EVENT_ACK {
            PacketType::InitEventAck
        } else if tag == TAG_INIT_FAIL {
            PacketType::InitFail
        } else if tag == TAG_OPERATION_REQUEST {
            PacketType::OperationRequest
        } else if tag == TAG_OPERATION_RESPONSE {
            PacketType::OperationResponse
        } else if tag == TAG_EVENT {
            PacketType::EventEvent
        } else if tag == TAG_START_DATA_PACKET {
            PacketType::StartDataPacket
        } else if tag == TAG_END_DATA_PACKET {
            PacketType::EndDataPacket
        } else {
            PacketType::Unknown(tag)
        }
    }

    /// The type tag under which a kind of frame travels.
    pub open spec fn to_tag(self) -> u32 {
        match self {
            PacketType::InitCommandRequest => TAG_INIT_COMMAND_REQUEST,
            PacketType::InitCommandAck => TAG_INIT_COMMAND_ACK,
            PacketType::InitEventRequest => TAG_INIT_EVENT_REQUEST,
            PacketType::InitEventAck => TAG_INIT_EVENT_ACK,
            PacketType::InitFail => TAG_INIT_FAIL,
            PacketType::OperationRequest => TAG_OPERATION_REQUEST,
            PacketType::OperationResponse => TAG_OPERATION_RESPONSE,
            PacketType::EventEvent => TAG_EVENT,
            PacketType::StartDataPacket => TAG_START_DATA_PACKET,
            PacketType::EndDataPacket => TAG_END_DATA_PACKET,
            PacketType::Unknown(tag) => tag,
        }
    }

    /// An `Unknown` kind never hides a catalogued tag.
    pub open spec fn wf(self) -> bool {
        self matches PacketType::Unknown(tag) ==> Self::of_tag(tag) == self
    }

    /// The kind of frame that travels under `tag`.
    pub fn from_tag(tag: u32) -> (kind: Self)
        ensures
            kind == Self::of_tag(tag),
            kind.wf(),
            kind.to_tag() == tag,
    {
        if tag == TAG_INIT_COMMAND_REQUEST {
            PacketType::InitCommandRequest
        } else if tag == TAG_INIT_COMMAND_ACK {
            PacketType::InitCommandAck
        } else if tag == TAG_INIT_EVENT_REQUEST {
            PacketType::InitEventRequest
        } else if tag == TAG_INIT_EVENT_ACK {
            PacketType::InitEventAck
        } else if tag == TAG_INIT_FAIL {
            PacketType::InitFail
        } else if tag == TAG_OPERATION_REQUEST {
            PacketType::OperationRequest
        } else if tag == TAG_OPERATION_RESPONSE {
            PacketType::OperationResponse
        } else if tag == TAG_EVENT {
            PacketType::EventEvent
        } else if tag == TAG_START_DATA_PACKET {
            PacketType::StartDataPacket
        } else if tag == TAG_END_DATA_PACKET {
            PacketType::EndDataPacket
        } else {
            PacketType::Unknown(tag)
        }
    }

    /// The type tag under which this kind of frame travels.
    pub fn tag(&self) -> (tag: u32)
        ensures
            tag == self.to_tag(),
    {
        match self {
            PacketType::InitCommandRequest => TAG_INIT_COMMAND_REQUEST,
            PacketType::InitCommandAck => TAG_INIT_COMMAND_ACK,
            PacketType::InitEventRequest => TAG_INIT_EVENT_REQUEST,
            PacketType::InitEventAck => TAG_INIT_EVENT_ACK,
            PacketType::InitFail => TAG_INIT_FAIL,
            PacketType::OperationRequest => TAG_OPERATION_REQUEST,
            PacketType::OperationResponse => TAG_OPERATION_RESPONSE,
            PacketType::EventEvent => TAG_EVENT,
            PacketType::StartDataPacket => TAG_START_DATA_PACKET,
            PacketType::EndDataPacket => TAG_END_DATA_PACKET,
            PacketType::Unknown(tag) => *tag,
        }
    }

    /// No tag is lost: every tag survives the trip through its kind, and
    /// every well-formed kind survives the trip through its tag.
    pub proof fn lemma_tag_round_trip(tag: u32, kind: PacketType)
        ensures
            Self::of_tag(tag).to_tag() == tag,
            Self::of_tag(tag).wf(),
            kind.wf() ==> Self::of_tag(kind.to_tag()) == kind,
    {
    }
}

/// One frame off the wire.
#[derive(Debug, PartialEq, Eq)]
pub struct Packet {
    /// Length of the whole frame, header included.
    pub length: u32,
    /// The type tag as it travelled.
    pub packet_type: u32,
    pub payload: Vec<u8>,
}

/// A frame as a mathematical value.
#[verifier::ext_equal]
pub struct PacketView {
    pub length: u32,
    pub packet_type: u32,
    pub payload: Seq<u8>,
}

impl View for Packet {
    type V = PacketView;

    open spec fn view(&self) -> PacketView {
        PacketView { length: self.length, packet_type: self.packet_type, payload: self.payload@ }
    }
}

impl PacketView {
    /// The length field counts the header and the payload, and there is a
    /// payload.
    pub open spec fn wf(self) -> bool {
        &&& self.payload.len() > 0
        &&& self.length == HEADER_LENGTH + self.payload.len()
    }

    /// The kind of frame that the type tag announces.
    pub open spec fn kind(self) -> PacketType {
        PacketType::of_tag(self.packet_type)
    }
}

impl Packet {
    /// The length field counts the header and the payload, and there is a
    /// payload.
    pub open spec fn wf(&self) -> bool {
        self@.wf()
    }

    /// The kind of frame that the type tag announces.
    pub fn kind(&self) -> (kind: PacketType)
        ensures
            kind == self@.kind(),
    {
        PacketType::from_tag(self.packet_type)
    }
}

/// The length that the head of `bytes` declares for its frame.
pub open spec fn declared_length(bytes: Seq<u8>) -> int
    recommends
        bytes.len() >= HEADER_LENGTH,
{
    u32_from_le(bytes)
}

/// The type tag at the head of `bytes`.
pub open spec fn declared_type(bytes: Seq<u8>) -> int
    recommends
        bytes.len() >= HEADER_LENGTH,
{
    u32_from_le(bytes.subrange(4, 8))
}

/// The bytes of the frame that carries `payload` under `packet_type`.
pub open spec fn spec_encode(packet_type: u32, payload: Seq<u8>) -> Seq<u8> {
    u32_to_le((HEADER_LENGTH + payload.len()) as u32) + u32_to_le(packet_type) + payload
}

/// What the header at the front of `bytes` says: the frame's length and type
/// tag, or why no frame can start there.
pub open spec fn spec_decode_header(bytes: Seq<u8>, max_length: u32) -> Result<(u32, u32), PTPError> {
    if bytes.len() < HEADER_LENGTH {
        Err(PTPError::Incomplete)
    } else if declared_length(bytes) <= HEADER_LENGTH {
        Err(PTPError::ResponseShort)
    } else if declared_length(bytes) > max_length {
        Err(PTPError::OversizedFrame)
    } else {
        Ok((declared_length(bytes) as u32, declared_type(bytes) as u32))
    }
}

/// The frame at the front of `bytes`, or why there is none.
pub open spec fn spec_decode(bytes: Seq<u8>, max_length: u32) -> Result<PacketView, PTPError> {
    match spec_decode_header(bytes, max_length) {
        Err(e) => Err(e),
        Ok((length, packet_type)) => if bytes.len() < length {
            Err(PTPError::Incomplete)
        } else {
            Ok(
                PacketView {
                    length,
                    packet_type,
                    payload: bytes.subrange(HEADER_LENGTH as int, length as int),
                },
            )
        },
    }
}

/// Builds the frame that carries `payload` under the type tag `packet_type`.
pub fn encode(packet_type: u32, payload: &[u8]) -> (frame: Vec<u8>)
    requires
        HEADER_LENGTH + payload@.len() <= u32::MAX,
    ensures
        frame@ == spec_encode(packet_type, payload@),
        frame@.len() == HEADER_LENGTH + payload@.len(),
{
    let mut frame: Vec<u8> = Vec::with_capacity(HEADER_LENGTH + payload.len());
    push_u32_le(&mut frame, (HEADER_LENGTH + payload.len()) as u32);
    push_u32_le(&mut frame, packet_type);
    frame.extend_from_slice(payload);
    assert(frame@ =~= spec_encode(packet_type, payload@));
    frame
}

/// Reads the length and the type tag at the front of `bytes`.
///
/// Fewer than eight bytes are `Incomplete`; a declared length that leaves no
/// payload is `ResponseShort`; one above `max_length` is `OversizedFrame`.
pub fn decode_header(bytes: &[u8], max_length: u32) -> (result: Result<(u32, u32), PTPError>)
    ensures
        result == spec_decode_header(bytes@, max_length),
        bytes@.len() < HEADER_LENGTH ==> result == Err::<(u32, u32), PTPError>(
            PTPError::Incomplete,
        ),
{
    if bytes.len() < HEADER_LENGTH {
        return Err(PTPError::Incomplete);
    }
    let length: u32 = read_u32_le(bytes);
    let packet_type: u32 = read_u32_le(&bytes[4..8]);
    if length as usize <= HEADER_LENGTH {
        Err(PTPError::ResponseShort)
    } else if length > max_length {
        Err(PTPError::OversizedFrame)
    } else {
        Ok((length, packet_type))
    }
}

/// Decodes the frame at the front of `bytes`; bytes beyond the declared
/// length are left alone.
///
/// `Incomplete` asks for more bytes: the header or the payload is not all
/// there yet. `ResponseShort` and `OversizedFrame` reject the declared
/// length before any payload is looked at.
pub fn decode(bytes: &[u8], max_length: u32) -> (result: Result<Packet, PTPError>)
    ensures
        match result {
            Ok(packet) => spec_decode(bytes@, max_length) == Ok::<PacketView, PTPError>(packet@)
                && packet.wf(),
            Err(e) => spec_decode(bytes@, max_length) == Err::<PacketView, PTPError>(e),
        },
        bytes@.len() < HEADER_LENGTH ==> result == Err::<Packet, PTPError>(PTPError::Incomplete),
        bytes@.len() >= HEADER_LENGTH && declared_length(bytes@) <= HEADER_LENGTH ==> result
            == Err::<Packet, PTPError>(PTPError::ResponseShort),
{
    match decode_header(bytes, max_length) {
        Err(e) => Err(e),
        Ok((length, packet_type)) => {
            if bytes.len() < length as usize {
                Err(PTPError::Incomplete)
            } else {
                let mut payload: Vec<u8> = Vec::with_capacity(length as usize - HEADER_LENGTH);
                payload.extend_from_slice(&bytes[HEADER_LENGTH..length as usize]);
                assert(payload@ =~= bytes@.subrange(HEADER_LENGTH as int, length as int));
                Ok(Packet { length, packet_type, payload })
            }
        },
    }
}

/// Decoding an encoded frame gives back its type and payload: for every type
/// tag and every non-empty payload whose frame fits under `max_length`.
pub proof fn lemma_decode_encode(packet_type: u32, payload: Seq<u8>, max_length: u32)
    requires
        payload.len() > 0,
        HEADER_LENGTH + payload.len() <= max_length,
    ensures
        spec_decode(spec_encode(packet_type, payload), max_length) == Ok::<PacketView, PTPError>(
            PacketView {
                length: (HEADER_LENGTH + payload.len()) as u32,
                packet_type,
                payload,
            },
        ),
{
    let length = (HEADER_LENGTH + payload.len()) as u32;
    let frame = spec_encode(packet_type, payload);
    lemma_u32_le_round_trip(length);
    lemma_u32_le_round_trip(packet_type);
    assert(frame.subrange(4, 8) =~= u32_to_le(packet_type));
    assert(frame.subrange(HEADER_LENGTH as int, length as int) =~= payload);
}

/// A buffer that ends before its frame does is `Incomplete`, never an error
/// of another kind and never a frame.
pub proof fn lemma_decode_prefix_incomplete(packet_type: u32, payload: Seq<u8>, max_length: u32, cut: int)
    requires
        payload.len() > 0,
        HEADER_LENGTH + payload.len() <= max_length,
        0 <= cut < HEADER_LENGTH + payload.len(),
    ensures
        spec_decode(spec_encode(packet_type, payload).subrange(0, cut), max_length) == Err::<
            PacketView,
            PTPError,
        >(PTPError::Incomplete),
{
    let length = (HEADER_LENGTH + payload.len()) as u32;
    lemma_u32_le_round_trip(length);
    let frame = spec_encode(packet_type, payload);
    if cut >= HEADER_LENGTH {
        assert(frame.subrange(0, cut).subrange(0, 4) =~= u32_to_le(length));
    }
}

/// A header says the same whatever follows it.
pub proof fn lemma_header_ignores_rest(header: Seq<u8>, rest: Seq<u8>, max_length: u32)
    requires
        header.len() >= HEADER_LENGTH,
    ensures
        spec_decode_header(header + rest, max_length) == spec_decode_header(header, max_length),
{
    assert((header + rest).subrange(4, 8) =~= header.subrange(4, 8));
}

/// How many bytes from the front of `bytes` settle what decoding makes of
/// them: the whole frame where there is one, the header where it rules a
/// frame out, and all there is where more is needed.
pub open spec fn decisive_length(bytes: Seq<u8>, max_length: u32) -> nat {
    match spec_decode_header(bytes, max_length) {
        Err(PTPError::Incomplete) => bytes.len(),
        Err(_) => HEADER_LENGTH as nat,
        Ok((length, _)) => if bytes.len() < length {
            bytes.len()
        } else {
            length as nat
        },
    }
}

/// Decoding looks at the decisive bytes only: whatever follows them changes
/// nothing.
pub proof fn lemma_decode_ignores_rest(bytes: Seq<u8>, max_length: u32)
    ensures
        decisive_length(bytes, max_length) <= bytes.len(),
        spec_decode(bytes.take(decisive_length(bytes, max_length) as int), max_length)
            == spec_decode(bytes, max_length),
        decisive_length(bytes.take(decisive_length(bytes, max_length) as int), max_length)
            == decisive_length(bytes, max_length),
{
    let span = decisive_length(bytes, max_length) as int;
    let front = bytes.take(span);
    if bytes.len() >= HEADER_LENGTH {
        assert(front + bytes.skip(span) =~= bytes);
        lemma_header_ignores_rest(front, bytes.skip(span), max_length);
        match spec_decode_header(bytes, max_length) {
            Ok((length, _)) => {
                if bytes.len() >= length {
                    assert(front.subrange(HEADER_LENGTH as int, length as int) =~= bytes.subrange(
                        HEADER_LENGTH as int,
                        length as int,
                    ));
                }
            },
            Err(_) => {},
        }
    } else {
        assert(front =~= bytes);
    }
}

} // verus!
