use rptpip::{
    encode_utf16_field, IoError, PTPClient, PTPError, PTPHandshake, PTPResult, PTPServer,
    PTPServerState, SessionState, Transport,
};

const GUID: [u8; 16] = [
    0xf2, 0xe4, 0x53, 0x8f, 0xad, 0xa5, 0x48, 0x5d, 0x87, 0xb2, 0x7f, 0x0b, 0xd3, 0xd5, 0xde, 0xd0,
];

fn field_by_std(name: &str, units: usize) -> Vec<u8> {
    let mut field = Vec::new();
    let kept = if units == 0 { 0 } else { units - 1 };
    for unit in name.encode_utf16().take(kept) {
        field.extend_from_slice(&unit.to_le_bytes());
    }
    field.resize(2 * units, 0);
    field
}

fn init_request_of(name: &str) -> Vec<u8> {
    let mut frame = vec![78, 0, 0, 0, 1, 0, 0, 0];
    frame.extend_from_slice(&GUID);
    frame.extend_from_slice(&field_by_std(name, 27));
    frame
}

#[test]
fn test_handshake() {
    // Create the server
    let server = PTPServer::new();
    // Give the server to the client
    let client = PTPClient::new(server);
    assert!(client.is_err());
}

#[test]
fn stock_device_refuses_the_handshake() {
    let client = PTPClient::new(PTPServer::new());
    assert_eq!(client.err(), Some(PTPError::HandshakeError));
}

#[test]
fn refused_handshake_leaves_the_session_disconnected() {
    let mut client = PTPClient::with_transport(PTPServer::new());
    assert_eq!(client.state(), SessionState::Initial);
    assert_eq!(client.handshake(), Err(PTPError::HandshakeError));
    assert_eq!(client.state(), SessionState::Disconnected);
    assert_eq!(client.session_id(), None);
    let server = client.into_transport();
    assert_eq!(server.written(), init_request_of("Rust PTP/IP").as_slice());
    assert_eq!(server.remaining(), 0);
}

#[test]
fn device_busy_refuses_the_handshake() {
    let script = vec![0x0c, 0, 0, 0, 0x05, 0, 0, 0, 0x1e, 0x20, 0, 0];
    let mut client = PTPClient::with_transport(PTPServer::with_script(vec![script.clone()], 4));
    assert_eq!(client.handshake(), Err(PTPError::HandshakeError));
    assert_eq!(client.state(), SessionState::Disconnected);
    assert_eq!(PTPClient::new(PTPServer::with_script(vec![script], 4)).err(), Some(PTPError::HandshakeError));
}

#[test]
fn success_code_opens_the_session() {
    let script = vec![0x0c, 0, 0, 0, 0x05, 0, 0, 0, 0x19, 0x20, 0, 0];
    let client = PTPClient::new(PTPServer::with_script(vec![script], 4));
    assert!(client.is_ok());
    let client = client.unwrap();
    assert_eq!(client.state(), SessionState::Connected);
    assert_eq!(client.session_id(), None);
    assert_eq!(client.transport().written(), init_request_of("Rust PTP/IP").as_slice());
    assert_eq!(client.transport().state(), PTPServerState::Listening);
    assert_eq!(client.transport().flushed(), 78);
    assert!(!client.transport().read_unflushed());
}

#[test]
fn init_command_ack_opens_the_session_and_grants_its_identifier() {
    let script = vec![0x10, 0, 0, 0, 0x02, 0, 0, 0, 0x2a, 0x01, 0, 0, 0xaa, 0xbb, 0xcc, 0xdd];
    let mut client = PTPClient::with_transport(PTPServer::with_script(vec![script], 16));
    assert_eq!(client.handshake(), Ok(PTPResult::SessionAck { session_id: 0x012a }));
    assert_eq!(client.state(), SessionState::Connected);
    assert_eq!(client.session_id(), Some(0x012a));
}

#[test]
fn init_command_ack_without_identifier_is_the_wrong_size() {
    let script = vec![0x0a, 0, 0, 0, 0x02, 0, 0, 0, 0x2a, 0x01];
    let mut client = PTPClient::with_transport(PTPServer::with_script(vec![script], 16));
    assert_eq!(client.handshake(), Err(PTPError::InvalidResponseSize));
    assert_eq!(client.state(), SessionState::Disconnected);
}

#[test]
fn status_frame_of_the_wrong_size_fails_the_handshake() {
    let script = vec![0x0d, 0, 0, 0, 0x05, 0, 0, 0, 0x19, 0x20, 0, 0, 0];
    let client = PTPClient::new(PTPServer::with_script(vec![script], 4));
    assert_eq!(client.err(), Some(PTPError::InvalidResponseSize));
}

#[test]
fn frame_of_another_kind_fails_the_handshake() {
    let operation_response = vec![0x0c, 0, 0, 0, 0x07, 0, 0, 0, 0x19, 0x20, 0, 0];
    let client = PTPClient::new(PTPServer::with_script(vec![operation_response], 4));
    assert_eq!(client.err(), Some(PTPError::HandshakeError));
    let unknown_kind = vec![0x0c, 0, 0, 0, 0x99, 0, 0, 0, 0x19, 0x20, 0, 0];
    let client = PTPClient::new(PTPServer::with_script(vec![unknown_kind], 4));
    assert_eq!(client.err(), Some(PTPError::HandshakeError));
}

#[test]
fn header_without_payload_is_response_short() {
    let script = vec![0x08, 0, 0, 0, 0x05, 0, 0, 0, 0x19, 0x20, 0, 0];
    let mut client = PTPClient::with_transport(PTPServer::with_script(vec![script], 4));
    assert_eq!(client.handshake(), Err(PTPError::ResponseShort));
    assert_eq!(client.state(), SessionState::Disconnected);
    // Nothing beyond the header was asked for.
    assert_eq!(client.transport().remaining(), 4);
    let zero_length = vec![0, 0, 0, 0, 0x05, 0, 0, 0];
    let client = PTPClient::new(PTPServer::with_script(vec![zero_length], 4));
    assert_eq!(client.err(), Some(PTPError::ResponseShort));
}

#[test]
fn oversized_frame_is_rejected_before_its_payload_is_read() {
    // 0x0010_0001, one more than the maximum.
    let script = vec![0x01, 0x00, 0x10, 0x00, 0x05, 0, 0, 0, 0x19, 0x20, 0, 0];
    let mut client = PTPClient::with_transport(PTPServer::with_script(vec![script], 4));
    assert_eq!(client.handshake(), Err(PTPError::OversizedFrame));
    assert_eq!(client.state(), SessionState::Disconnected);
    assert_eq!(client.transport().remaining(), 4);
}

#[test]
fn silent_device_closes_the_handshake() {
    let client = PTPClient::new(PTPServer::with_script(vec![], 4));
    assert_eq!(client.err(), Some(PTPError::ConnectionClosed));
    let cut_in_header = vec![0x0c, 0, 0, 0, 0x05];
    let client = PTPClient::new(PTPServer::with_script(vec![cut_in_header], 4));
    assert_eq!(client.err(), Some(PTPError::ConnectionClosed));
    let cut_in_payload = vec![0x0c, 0, 0, 0, 0x05, 0, 0, 0, 0x19, 0x20];
    let client = PTPClient::new(PTPServer::with_script(vec![cut_in_payload], 4));
    assert_eq!(client.err(), Some(PTPError::ConnectionClosed));
}

#[test]
fn handshake_reads_a_frame_that_comes_one_byte_at_a_time() {
    let script = vec![0x0c, 0, 0, 0, 0x05, 0, 0, 0, 0x19, 0x20, 0, 0];
    for chunk in 1..14 {
        let client = PTPClient::new(PTPServer::with_script(vec![script.clone()], chunk));
        assert!(client.is_ok());
        assert_eq!(client.unwrap().state(), SessionState::Connected);
    }
}

#[test]
fn handshake_cannot_be_repeated() {
    let script = vec![0x0c, 0, 0, 0, 0x05, 0, 0, 0, 0x19, 0x20, 0, 0];
    let mut client = PTPClient::new(PTPServer::with_script(vec![script], 4)).unwrap();
    let written = client.transport().written().len();
    assert_eq!(client.handshake(), Err(PTPError::NotConnected));
    assert_eq!(client.state(), SessionState::Connected);
    assert_eq!(client.transport().written().len(), written);
}

struct Broken {
    fail_write: bool,
    fail_flush: bool,
    read_error: IoError,
    writes: usize,
    reads: usize,
}

impl Transport for Broken {
    fn write(&mut self, buf: &[u8]) -> Result<usize, IoError> {
        self.writes += 1;
        if self.fail_write {
            Err(IoError::Failed)
        } else {
            Ok(buf.len())
        }
    }

    fn read(&mut self, _buf: &mut [u8]) -> Result<usize, IoError> {
        self.reads += 1;
        Err(self.read_error)
    }

    fn flush(&mut self) -> Result<(), IoError> {
        if self.fail_flush {
            Err(IoError::TimedOut)
        } else {
            Ok(())
        }
    }
}

fn broken(fail_write: bool, fail_flush: bool, read_error: IoError) -> Broken {
    Broken { fail_write, fail_flush, read_error, writes: 0, reads: 0 }
}

#[test]
fn transport_failures_surface_as_io_error() {
    let mut client = PTPClient::with_transport(broken(true, false, IoError::Failed));
    assert_eq!(client.handshake(), Err(PTPError::IoError));
    assert_eq!(client.state(), SessionState::Disconnected);
    assert_eq!(client.transport().reads, 0);

    let mut client = PTPClient::with_transport(broken(false, true, IoError::Failed));
    assert_eq!(client.handshake(), Err(PTPError::IoError));
    assert_eq!(client.state(), SessionState::Disconnected);
    assert_eq!(client.transport().reads, 0);

    let mut client = PTPClient::with_transport(broken(false, false, IoError::Failed));
    assert_eq!(client.handshake(), Err(PTPError::IoError));
    assert_eq!(client.state(), SessionState::Disconnected);
    assert_eq!(client.transport().reads, 1);

    assert_eq!(
        PTPClient::new(broken(false, false, IoError::Failed)).err(),
        Some(PTPError::IoError)
    );
}

#[test]
fn answer_that_does_not_come_in_time_is_invalid_response_state() {
    let mut client = PTPClient::with_transport(broken(false, false, IoError::TimedOut));
    assert_eq!(client.handshake(), Err(PTPError::InvalidResponseState));
    assert_eq!(client.state(), SessionState::Disconnected);
}

#[test]
fn init_request_under_the_clients_own_name() {
    let frame = PTPHandshake::new("Rust PTP/IP").to_u8();
    let mut expected: Vec<u8> = vec![
        0x4e, 0x00, 0x00, 0x00, 0x01, 0x00, 0x00, 0x00, 0xf2, 0xe4, 0x53, 0x8f, 0xad, 0xa5, 0x48,
        0x5d, 0x87, 0xb2, 0x7f, 0x0b, 0xd3, 0xd5, 0xde, 0xd0, b'R', 0, b'u', 0, b's', 0, b't', 0,
        b' ', 0, b'P', 0, b'T', 0, b'P', 0, b'/', 0, b'I', 0, b'P', 0,
    ];
    // Eleven units of name, sixteen of padding.
    expected.extend_from_slice(&[0u8; 32]);
    assert_eq!(frame.len(), 78);
    assert_eq!(frame, expected);
}

#[test]
fn init_request_has_one_length_whatever_the_name() {
    let names = [
        "",
        "a",
        "iPhone-6451-2017.0923",
        "abcdefghijklmnopqrstuvwxy",
        "abcdefghijklmnopqrstuvwxyz",
        "abcdefghijklmnopqrstuvwxyz0",
        "abcdefghijklmnopqrstuvwxyz0123456789abcdefghijklmnopqrstuvwxyz",
        "Kamera f\u{fc}r J\u{fc}rgen \u{2013} na\u{ef}ve caf\u{e9}",
        "\u{1F4F7}\u{1F4F7}\u{1F4F7}\u{1F4F7}\u{1F4F7}\u{1F4F7}\u{1F4F7}\u{1F4F7}\u{1F4F7}\u{1F4F7}\u{1F4F7}\u{1F4F7}\u{1F4F7}\u{1F4F7}",
    ];
    for name in names {
        let frame = PTPHandshake::new(name).to_u8();
        assert_eq!(frame.len(), 78);
        assert_eq!(frame, init_request_of(name));
        // The name field always ends in the terminator.
        assert_eq!(&frame[76..], &[0, 0]);
    }
}

#[test]
fn long_name_is_truncated_to_leave_the_terminator() {
    let name = "abcdefghijklmnopqrstuvwxyz0123456789";
    let frame = PTPHandshake::new(name).to_u8();
    let field = &frame[24..];
    assert_eq!(field.len(), 54);
    for (k, c) in "abcdefghijklmnopqrstuvwxyz".bytes().enumerate() {
        assert_eq!(field[2 * k], c);
        assert_eq!(field[2 * k + 1], 0);
    }
    assert_eq!(&field[52..], &[0, 0]);
}

#[test]
fn short_name_is_followed_by_zeros() {
    let frame = PTPHandshake::new("cam").to_u8();
    let field = &frame[24..];
    assert_eq!(&field[..6], &[b'c', 0, b'a', 0, b'm', 0]);
    assert!(field[6..].iter().all(|b| *b == 0));
    assert_eq!(field.len(), 54);
}

#[test]
fn identity_with_its_own_guid() {
    let guid = [7u8; 16];
    let frame = PTPHandshake::with_guid(guid, "x").to_u8();
    assert_eq!(&frame[..8], &[78, 0, 0, 0, 1, 0, 0, 0]);
    assert_eq!(&frame[8..24], &guid);
    assert_eq!(&frame[24..28], &[b'x', 0, 0, 0]);
    assert_eq!(PTPHandshake::with_guid(GUID, "x"), PTPHandshake::new("x"));
}

#[test]
fn utf16_field_matches_the_standard_encoding() {
    let texts = ["", "a", "h\u{e9}llo", "\u{65e5}\u{672c}\u{8a9e}\u{306e}\u{30ab}\u{30e1}\u{30e9}", "\u{1F4F7}", "a\u{1F4F7}b", "\u{10FFFF}\u{FFFF}\u{10000}"];
    for text in texts {
        for units in 0..12 {
            let field = encode_utf16_field(text, units);
            assert_eq!(field.len(), 2 * units);
            assert_eq!(field, field_by_std(text, units));
        }
    }
}

#[test]
fn utf16_field_stores_each_unit_low_byte_first() {
    assert_eq!(encode_utf16_field("\u{20AC}", 2), vec![0xAC, 0x20, 0, 0]);
    // U+1F4F7 is the surrogate pair D83D DCF7.
    assert_eq!(encode_utf16_field("\u{1F4F7}", 3), vec![0x3D, 0xD8, 0xF7, 0xDC, 0, 0]);
    // Cut where only the first half of the pair fits.
    assert_eq!(encode_utf16_field("\u{1F4F7}", 2), vec![0x3D, 0xD8, 0, 0]);
    assert_eq!(encode_utf16_field("abc", 1), vec![0, 0]);
    assert_eq!(encode_utf16_field("abc", 0), Vec::<u8>::new());
}
