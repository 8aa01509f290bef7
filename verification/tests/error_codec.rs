use gopherwire::packet;
use gopherwire::packet::error_response::ErrorResponsePacket;
use gopherwire::packet::{vec_to_packet, PacketError, PacketResult, PacketType};

#[test]
fn error_response_packet() {
    let pack_result = ErrorResponsePacket::new(0xAB, 0x1234, "foobarbaz".to_string());

    assert_eq!(pack_result.is_ok(), true);
}

#[test]
fn error_response_packet_serialize() {
    let pack = ErrorResponsePacket::new(0xAB, 0x1234, "foobarbaz".to_string()).unwrap();
    let pack_vec = pack.to_vec();

    let mut expect_vec: Vec<u8> = vec![
        packet::MAGIC_NUM_BE,
        packet::MAGIC_NUM_LE,
        packet::PROTOCOL_VERSION_BE,
        packet::PROTOCOL_VERSION_LE,
        PacketType::ErrorResponse.value(),
        // Connection ID
        0x12,
        0x34,
        10,   // Length
        0xAB, // Err ID
    ];
    expect_vec.extend("foobarbaz".as_bytes());

    assert_eq!(pack_vec, expect_vec);
}

#[test]
fn error_response_packet_deserialize() {
    let pack = ErrorResponsePacket::new(0xBA, 0xAB12, "foo".to_string()).unwrap();
    let pack_vec = pack.to_vec();

    let new_pack = ErrorResponsePacket::from_vec(pack_vec).unwrap();
    assert_eq!(pack.connection_id, new_pack.connection_id);
    assert_eq!(pack.error_id, new_pack.error_id);
    assert_eq!(pack.err_str, new_pack.err_str);
}

#[test]
fn error_response_round_trips_through_facade() {
    let pack = ErrorResponsePacket::new(0x07, 0x4242, "not found".to_string()).unwrap();
    let pack_vec = pack.to_vec();
    match vec_to_packet(pack_vec) {
        Ok(PacketResult::ErrorResponse(p)) => {
            assert_eq!(p.error_id, 0x07);
            assert_eq!(p.err_str, "not found");
            assert_eq!(p.connection_id, 0x4242);
        }
        _ => panic!("expected an error packet"),
    }
}

#[test]
fn error_response_with_empty_message_round_trips() {
    let pack = ErrorResponsePacket::new(0x01, 0x0001, String::new()).unwrap();
    let pack_vec = pack.to_vec();
    assert_eq!(pack_vec.len(), 9);
    match vec_to_packet(pack_vec) {
        Ok(PacketResult::ErrorResponse(p)) => {
            assert_eq!(p.error_id, 0x01);
            assert_eq!(p.err_str, "");
        }
        _ => panic!("expected an error packet"),
    }
}

#[test]
fn error_response_without_error_id_byte_is_malformed() {
    // an empty payload cannot hold the error id byte
    let bytes: Vec<u8> = vec![0xBB, 0x50, 0x00, 0x01, 0x03, 0x12, 0x34, 0x00];
    match vec_to_packet(bytes) {
        Err(PacketError::MalformedPacket(_)) => {}
        _ => panic!("expected MalformedPacket"),
    }
}

#[test]
fn error_message_with_invalid_text_is_malformed() {
    let bytes: Vec<u8> = vec![0xBB, 0x50, 0x00, 0x01, 0x03, 0x12, 0x34, 0x02, 0xAB, 0xFF];
    match vec_to_packet(bytes) {
        Err(PacketError::MalformedPacket(_)) => {}
        _ => panic!("expected MalformedPacket"),
    }
}
