use rptpip::codec::{
    HEADER_LENGTH, MAX_FRAME_LENGTH, TAG_END_DATA_PACKET, TAG_EVENT, TAG_INIT_COMMAND_ACK,
    TAG_INIT_COMMAND_REQUEST, TAG_INIT_EVENT_ACK, TAG_INIT_EVENT_REQUEST, TAG_INIT_FAIL,
    TAG_OPERATION_REQUEST, TAG_OPERATION_RESPONSE, TAG_START_DATA_PACKET,
};
use rptpip::{
    decode, decode_header, encode, interpret, PTPError, PTPResponseCode, PTPResult, Packet,
    PacketType,
};

fn packet(packet_type: u32, payload: &[u8]) -> Packet {
    Packet { length: 8 + payload.len() as u32, packet_type, payload: payload.to_vec() }
}

#[test]
fn encode_lays_out_length_type_and_payload() {
    assert_eq!(encode(5, &[0x19, 0x20, 0, 0]), vec![0x0c, 0, 0, 0, 0x05, 0, 0, 0, 0x19, 0x20, 0, 0]);
    assert_eq!(encode(0x0102_0304, &[0xff]), vec![9, 0, 0, 0, 4, 3, 2, 1, 0xff]);
    assert_eq!(encode(7, &[]), vec![8, 0, 0, 0, 7, 0, 0, 0]);
    let long = vec![0xabu8; 0x1_0203];
    let frame = encode(1, &long);
    assert_eq!(frame.len(), 8 + 0x1_0203);
    assert_eq!(&frame[..8], &[0x0b, 0x02, 0x01, 0x00, 1, 0, 0, 0]);
    assert_eq!(&frame[8..], long.as_slice());
}

#[test]
fn decode_gives_back_what_encode_took() {
    let payloads: [&[u8]; 4] = [&[0], &[0x19, 0x20, 0, 0], &[1, 2, 3, 4, 5, 6, 7], &[0xff; 300]];
    let tags = [0u32, 1, 5, 7, 12, 0x99, 0xdead_beef, u32::MAX];
    for payload in payloads {
        for tag in tags {
            let frame = encode(tag, payload);
            assert_eq!(decode(&frame, MAX_FRAME_LENGTH), Ok(packet(tag, payload)));
            assert_eq!(decode(&frame, frame.len() as u32), Ok(packet(tag, payload)));
        }
    }
}

#[test]
fn decode_of_fewer_than_eight_bytes_is_incomplete() {
    let frame = encode(5, &[0x19, 0x20, 0, 0]);
    for cut in 0..8 {
        assert_eq!(decode(&frame[..cut], MAX_FRAME_LENGTH), Err(PTPError::Incomplete));
        assert_eq!(decode_header(&frame[..cut], MAX_FRAME_LENGTH), Err(PTPError::Incomplete));
    }
    assert_eq!(decode(&[0xff; 7], MAX_FRAME_LENGTH), Err(PTPError::Incomplete));
    assert_eq!(decode(&[0; 7], 0), Err(PTPError::Incomplete));
}

#[test]
fn decode_of_a_frame_cut_in_its_payload_is_incomplete() {
    let frame = encode(5, &[0x19, 0x20, 0, 0]);
    for cut in 8..12 {
        assert_eq!(decode(&frame[..cut], MAX_FRAME_LENGTH), Err(PTPError::Incomplete));
        assert_eq!(decode_header(&frame[..cut], MAX_FRAME_LENGTH), Ok((12, 5)));
    }
}

#[test]
fn declared_length_without_payload_is_response_short() {
    for length in 0u8..9 {
        let bytes = [length, 0, 0, 0, 5, 0, 0, 0, 1, 2, 3, 4];
        assert_eq!(decode(&bytes, MAX_FRAME_LENGTH), Err(PTPError::ResponseShort));
        assert_eq!(decode(&bytes[..8], MAX_FRAME_LENGTH), Err(PTPError::ResponseShort));
        assert_eq!(decode_header(&bytes, MAX_FRAME_LENGTH), Err(PTPError::ResponseShort));
    }
    assert_eq!(decode(&encode(7, &[]), MAX_FRAME_LENGTH), Err(PTPError::ResponseShort));
    // Short wins over oversized: the length is no frame at all.
    assert_eq!(decode(&[8, 0, 0, 0, 5, 0, 0, 0], 4), Err(PTPError::ResponseShort));
}

#[test]
fn declared_length_above_the_maximum_is_oversized() {
    let frame = encode(5, &[0x19, 0x20, 0, 0]);
    assert_eq!(decode(&frame, 11), Err(PTPError::OversizedFrame));
    assert_eq!(decode(&frame, 12), Ok(packet(5, &[0x19, 0x20, 0, 0])));
    assert_eq!(decode_header(&frame, 11), Err(PTPError::OversizedFrame));
    let huge = [0xff, 0xff, 0xff, 0xff, 1, 0, 0, 0];
    assert_eq!(decode(&huge, MAX_FRAME_LENGTH), Err(PTPError::OversizedFrame));
    let just_over = [0x01, 0x00, 0x10, 0x00, 1, 0, 0, 0];
    assert_eq!(decode(&just_over, MAX_FRAME_LENGTH), Err(PTPError::OversizedFrame));
    let at_most = [0x00, 0x00, 0x10, 0x00, 1, 0, 0, 0];
    assert_eq!(decode(&at_most, MAX_FRAME_LENGTH), Err(PTPError::Incomplete));
    assert_eq!(decode_header(&at_most, MAX_FRAME_LENGTH), Ok((0x0010_0000, 1)));
}

#[test]
fn decode_leaves_bytes_beyond_the_frame_alone() {
    let mut stream = encode(5, &[0x19, 0x20, 0, 0]);
    stream.extend_from_slice(&encode(7, &[1]));
    let first = decode(&stream, MAX_FRAME_LENGTH).unwrap();
    assert_eq!(first, packet(5, &[0x19, 0x20, 0, 0]));
    let second = decode(&stream[first.length as usize..], MAX_FRAME_LENGTH).unwrap();
    assert_eq!(second, packet(7, &[1]));
}

#[test]
fn header_fields_are_read_little_endian() {
    let bytes = [0x78, 0x56, 0x34, 0x12, 0x0d, 0xf0, 0xad, 0xba, 0, 0];
    assert_eq!(decode_header(&bytes, u32::MAX), Ok((0x1234_5678, 0xbaad_f00d)));
    assert_eq!(HEADER_LENGTH, 8);
    assert_eq!(MAX_FRAME_LENGTH, 0x0010_0000);
}

#[test]
fn packet_types_keep_their_tags() {
    let catalogue = [
        (TAG_INIT_COMMAND_REQUEST, PacketType::InitCommandRequest, 1),
        (TAG_INIT_COMMAND_ACK, PacketType::InitCommandAck, 2),
        (TAG_INIT_EVENT_REQUEST, PacketType::InitEventRequest, 3),
        (TAG_INIT_EVENT_ACK, PacketType::InitEventAck, 4),
        (TAG_INIT_FAIL, PacketType::InitFail, 5),
        (TAG_OPERATION_REQUEST, PacketType::OperationRequest, 6),
        (TAG_OPERATION_RESPONSE, PacketType::OperationResponse, 7),
        (TAG_EVENT, PacketType::EventEvent, 8),
        (TAG_START_DATA_PACKET, PacketType::StartDataPacket, 9),
        (TAG_END_DATA_PACKET, PacketType::EndDataPacket, 12),
    ];
    for (tag, kind, number) in catalogue {
        assert_eq!(tag, number);
        assert_eq!(PacketType::from_tag(tag), kind);
        assert_eq!(kind.tag(), tag);
    }
    for tag in [0u32, 10, 11, 13, 0x99, u32::MAX] {
        assert_eq!(PacketType::from_tag(tag), PacketType::Unknown(tag));
        assert_eq!(PacketType::from_tag(tag).tag(), tag);
    }
    assert_eq!(packet(7, &[1]).kind(), PacketType::OperationResponse);
    assert_eq!(packet(0x99, &[1]).kind(), PacketType::Unknown(0x99));
}

#[test]
fn response_codes_keep_their_values() {
    assert_eq!(PTPResponseCode::new(0x2019), PTPResponseCode::Success);
    assert_eq!(PTPResponseCode::new(0x201e), PTPResponseCode::DeviceBusy);
    assert_eq!(PTPResponseCode::new(0), PTPResponseCode::Unknown(0));
    assert_eq!(PTPResponseCode::new(0x1e20), PTPResponseCode::Unknown(0x1e20));
    assert_eq!(PTPResponseCode::new(0x2001), PTPResponseCode::Unknown(0x2001));
    for code in [0u32, 1, 0x2018, 0x2019, 0x201a, 0x201d, 0x201e, 0x201f, u32::MAX] {
        assert_eq!(PTPResponseCode::new(code).code(), code);
    }
}

#[test]
fn response_code_payload_decodes_little_endian() {
    let success = PTPResult::UintResult4 { result: PTPResponseCode::Success };
    let busy = PTPResult::UintResult4 { result: PTPResponseCode::DeviceBusy };
    assert_eq!(interpret(&packet(5, &[0x19, 0x20, 0, 0])), Ok(success));
    assert_eq!(interpret(&packet(7, &[0x19, 0x20, 0, 0])), Ok(success));
    assert_eq!(interpret(&packet(5, &[0x1e, 0x20, 0, 0])), Ok(busy));
    assert_eq!(
        interpret(&packet(5, &[0x20, 0x1e, 0, 0])),
        Ok(PTPResult::UintResult4 { result: PTPResponseCode::Unknown(0x1e20) })
    );
    assert_eq!(
        interpret(&packet(7, &[0x78, 0x56, 0x34, 0x12])),
        Ok(PTPResult::UintResult4 { result: PTPResponseCode::Unknown(0x1234_5678) })
    );
}

#[test]
fn response_code_payload_of_another_size_is_invalid() {
    for tag in [5, 7] {
        for size in [1usize, 2, 3, 5, 8] {
            let payload = vec![0x19u8; size];
            assert_eq!(interpret(&packet(tag, &payload)), Err(PTPError::InvalidResponseSize));
        }
    }
}

#[test]
fn init_command_ack_begins_with_the_session_identifier() {
    assert_eq!(
        interpret(&packet(2, &[0x44, 0x33, 0x22, 0x11])),
        Ok(PTPResult::SessionAck { session_id: 0x1122_3344 })
    );
    assert_eq!(
        interpret(&packet(2, &[1, 0, 0, 0, 9, 9, 9, 9, 9, 9])),
        Ok(PTPResult::SessionAck { session_id: 1 })
    );
    assert_eq!(interpret(&packet(2, &[1, 0, 0])), Err(PTPError::InvalidResponseSize));
}

#[test]
fn unknown_kind_is_unknown_error_and_other_kinds_are_not_looked_into() {
    for tag in [0u32, 10, 11, 0x99, u32::MAX] {
        assert_eq!(interpret(&packet(tag, &[0x19, 0x20, 0, 0])), Err(PTPError::UnknownError));
    }
    for tag in [1u32, 3, 4, 6, 8, 9, 12] {
        assert_eq!(interpret(&packet(tag, &[0x19, 0x20, 0, 0])), Ok(PTPResult::Unknown {}));
    }
}
