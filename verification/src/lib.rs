//! Client side of the PTP/IP session protocol: frame codec, session state
//! machine, handshake and request/response exchange over any byte transport.

pub mod client;
pub mod codec;
pub mod exchange;
pub mod handshake;
pub mod response;
pub mod server;
pub mod session;
pub mod transport;
pub mod wire;

pub use client::PTPClient;
pub use codec::{decode, decode_header, encode, Packet, PacketType};
pub use handshake::{encode_utf16_field, PTPHandshake};
pub use response::{interpret, PTPError, PTPResponseCode, PTPResult};
pub use server::{Ending, PTPServer, PTPServerState};
pub use session::{SessionAction, SessionEvent, SessionState};
pub use transport::{IoError, Transport};
