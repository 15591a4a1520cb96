//! What an exchange with the device can yield: a decoded result or an error.

use crate::codec::{Packet, PacketType, PacketView};
use crate::wire::{read_u32_le, u32_from_le};
use vstd::prelude::*;

verus! {

/// Why an exchange did not yield a result.
#[derive(Debug, PartialEq, Eq, Clone, Copy, Structural)]
pub enum PTPError {
    /// The frame's type tag is not one this client knows.
    UnknownError,
    /// The declared frame length leaves no room for a payload.
    ResponseShort,
    /// The payload length is not what the frame's type calls for.
    InvalidResponseSize,
    /// The frame's type is not legal in the current session state, or no
    /// frame came in time.
    InvalidResponseState,
    /// The device answered the handshake with a refusal.
    HandshakeError,
    /// More bytes are needed before the frame can be decoded.
    Incomplete,
    /// The declared frame length exceeds the permitted maximum.
    OversizedFrame,
    /// The transport reported a failure.
    IoError,
    /// The transport moved no bytes: the peer has closed the connection.
    ConnectionClosed,
    /// The call is not allowed in the session's current state.
    NotConnected,
}

/// The code with which a device reports the outcome of a request.
#[derive(Debug, PartialEq, Eq, Clone, Copy, Structural)]
pub enum PTPResponseCode {
    /// A code outside the catalogue, kept as it came off the wire.
    Unknown(u32),
    /// The request was carried out.
    Success,
    /// The device cannot take the request now.
    DeviceBusy,
}

/// The wire value of `Success`.
pub const RESPONSE_SUCCESS: u32 = 0x0000_2019;

/// The wire value of `DeviceBusy`.
pub const RESPONSE_DEVICE_BUSY: u32 = 0x0000_201e;

impl PTPResponseCode {
    /// The response code that the wire value `code` stands for.
    pub open spec fn from_code(code: u32) -> PTPResponseCode {
        if code == RESPONSE_SUCCESS {
            PTPResponseCode::Success
        } else if code == RESPONSE_DEVICE_BUSY {
            PTPResponseCode::DeviceBusy
        } else {
            PTPResponseCode::Unknown(code)
        }
    }

    /// The wire value of a response code.
    pub open spec fn to_code(self) -> u32 {
        match self {
            PTPResponseCode::Success => RESPONSE_SUCCESS,
            PTPResponseCode::DeviceBusy => RESPONSE_DEVICE_BUSY,
            PTPResponseCode::Unknown(code) => code,
        }
    }

    /// An `Unknown` code never hides a catalogued value.
    pub open spec fn wf(self) -> bool {
        self matches PTPResponseCode::Unknown(code) ==> code != RESPONSE_SUCCESS && code
            != RESPONSE_DEVICE_BUSY
    }

    /// The response code that the wire value `code` stands for. A value
    /// outside the catalogue is kept as `Unknown`.
    pub fn new(code: u32) -> (result: Self)
        ensures
            result == Self::from_code(code),
            result.wf(),
            result.to_code() == code,
    {
        if code == RESPONSE_SUCCESS {
            PTPResponseCode::Success
        } else if code == RESPONSE_DEVICE_BUSY {
            PTPResponseCode::DeviceBusy
        } else {
            PTPResponseCode::Unknown(code)
        }
    }

    /// The wire value of this response code.
    pub fn code(&self) -> (code: u32)
        ensures
            code == self.to_code(),
    {
        match self {
            PTPResponseCode::Success => RESPONSE_SUCCESS,
            PTPResponseCode::DeviceBusy => RESPONSE_DEVICE_BUSY,
            PTPResponseCode::Unknown(code) => *code,
        }
    }

    /// Every wire value survives the trip through a response code, and every
    /// well-formed response code survives the trip through its wire value.
    pub proof fn lemma_code_round_trip(code: u32, response: PTPResponseCode)
        ensures
            Self::from_code(code).to_code() == code,
            Self::from_code(code).wf(),
            response.wf() ==> Self::from_code(response.to_code()) == response,
    {
    }
}

/// What a frame's payload decodes to.
#[derive(Debug, PartialEq, Eq, Clone, Copy)]
pub enum PTPResult {
    /// A frame of a known type whose payload this client does not interpret.
    Unknown {  },
    /// A response code, carried as one little-endian word.
    UintResult4 { result: PTPResponseCode },
    /// The device's acknowledgement of the init command, with the session
    /// identifier it assigned.
    SessionAck { session_id: u32 },
}

/// Bytes in a payload that is one response code.
pub const RESPONSE_CODE_LENGTH: usize = 4;

/// Bytes at the front of an init command acknowledgement that hold the
/// session identifier.
pub const SESSION_ID_LENGTH: usize = 4;

/// What the payload of a frame means, going by the frame's type tag alone.
///
/// `InitFail` and `OperationResponse` carry exactly one response code;
/// `InitCommandAck` begins with the session identifier. A payload of another
/// size is `InvalidResponseSize`. A tag outside the catalogue is
/// `UnknownError`; the other catalogued kinds are not looked into.
pub open spec fn spec_interpret(packet: PacketView) -> Result<PTPResult, PTPError> {
    match packet.kind() {
        PacketType::InitFail | PacketType::OperationResponse => if packet.payload.len()
            == RESPONSE_CODE_LENGTH {
            Ok(
                PTPResult::UintResult4 {
                    result: PTPResponseCode::from_code(u32_from_le(packet.payload) as u32),
                },
            )
        } else {
            Err(PTPError::InvalidResponseSize)
        },
        PacketType::InitCommandAck => if packet.payload.len() >= SESSION_ID_LENGTH {
            Ok(PTPResult::SessionAck { session_id: u32_from_le(packet.payload) as u32 })
        } else {
            Err(PTPError::InvalidResponseSize)
        },
        PacketType::Unknown(_) => Err(PTPError::UnknownError),
        _ => Ok(PTPResult::Unknown {  }),
    }
}

/// Decodes the payload of `packet` as its type tag says.
pub fn interpret(packet: &Packet) -> (result: Result<PTPResult, PTPError>)
    ensures
        result == spec_interpret(packet@),
{
    match packet.kind() {
        PacketType::InitFail | PacketType::OperationResponse => {
            if packet.payload.len() == RESPONSE_CODE_LENGTH {
                let code: u32 = read_u32_le(packet.payload.as_slice());
                Ok(PTPResult::UintResult4 { result: PTPResponseCode::new(code) })
            } else {
                Err(PTPError::InvalidResponseSize)
            }
        },
        PacketType::InitCommandAck => {
            if packet.payload.len() >= SESSION_ID_LENGTH {
                let session_id: u32 = read_u32_le(packet.payload.as_slice());
                Ok(PTPResult::SessionAck { session_id })
            } else {
                Err(PTPError::InvalidResponseSize)
            }
        },
        PacketType::Unknown(_) => Err(PTPError::UnknownError),
        _ => Ok(PTPResult::Unknown {  }),
    }
}

} // verus!
