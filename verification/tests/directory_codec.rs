use gopherwire::packet;
use gopherwire::packet::directory_response::{DirectoryEntry, DirectoryResponsePacket};
use gopherwire::packet::{vec_to_packet, PacketError, PacketResult, PacketType};

#[test]
fn directory_response_packet() {
    let pack_result = DirectoryResponsePacket::new(
        vec![DirectoryEntry {
            entry_id: 0xAABB,
            name: "Foo".to_string(),
        }],
        0xCCDD,
    );

    assert_eq!(pack_result.is_ok(), true);
}

#[test]
fn directory_single_entry() {
    let pack = DirectoryResponsePacket::new(
        vec![DirectoryEntry {
            entry_id: 0xAABB,
            name: "Foo".to_string(),
        }],
        0xCCDD,
    )
    .unwrap();
    let pack_vec = pack.to_vec();

    let expect_vec: Vec<u8> = vec![
        packet::MAGIC_NUM_BE,
        packet::MAGIC_NUM_LE,
        packet::PROTOCOL_VERSION_BE,
        packet::PROTOCOL_VERSION_LE,
        PacketType::DirectoryResponse.value(),
        0xCC, // connection ID BE
        0xDD, // connection ID LE
        6,    // length
        0xAA, // entry ID BE
        0xBB, // entry ID LE
        0x46, // "F"
        0x6F, // "o"
        0x6F, // "o"
        0x1E, // record separator
    ];

    assert_eq!(pack_vec, expect_vec);
}

#[test]
fn directory_multiple_entry() {
    let pack = DirectoryResponsePacket::new(
        vec![
            DirectoryEntry {
                entry_id: 0xAABB,
                name: "Foo".to_string(),
            },
            DirectoryEntry {
                entry_id: 0xAABC,
                name: "Bar".to_string(),
            },
        ],
        0xCCDD,
    )
    .unwrap();
    let pack_vec = pack.to_vec();

    let expect_vec: Vec<u8> = vec![
        packet::MAGIC_NUM_BE,
        packet::MAGIC_NUM_LE,
        packet::PROTOCOL_VERSION_BE,
        packet::PROTOCOL_VERSION_LE,
        PacketType::DirectoryResponse.value(),
        0xCC, // connection ID BE
        0xDD, // connection ID LE
        12,   // length
        0xAA, // entry ID BE
        0xBB, // entry ID LE
        0x46, // "F"
        0x6F, // "o"
        0x6F, // "o"
        0x1E, // record separator
        0xAA, // entry ID BE
        0xBC, // entry ID LE
        0x42, // "B"
        0x61, // "a"
        0x72, // "r"
        0x1E, // record separator
    ];

    assert_eq!(pack_vec, expect_vec);
}

#[test]
fn directory_listing_order_is_preserved() {
    let pack = DirectoryResponsePacket::new(
        vec![
            DirectoryEntry {
                entry_id: 1,
                name: "Foo".to_string(),
            },
            DirectoryEntry {
                entry_id: 2,
                name: "Bar".to_string(),
            },
        ],
        0x0042,
    )
    .unwrap();
    let pack_vec = pack.to_vec();
    match vec_to_packet(pack_vec) {
        Ok(PacketResult::DirectoryResponse(p)) => {
            assert_eq!(p.entries.len(), 2);
            assert_eq!(p.entries[0].entry_id, 1);
            assert_eq!(p.entries[0].name, "Foo");
            assert_eq!(p.entries[1].entry_id, 2);
            assert_eq!(p.entries[1].name, "Bar");
            assert_eq!(p.connection_id, 0x0042);
        }
        _ => panic!("expected a directory packet"),
    }
}

#[test]
fn empty_listing_encodes_to_empty_payload_and_round_trips() {
    let pack = DirectoryResponsePacket::new(vec![], 0x0707).unwrap();
    let pack_vec = pack.to_vec();
    assert_eq!(pack_vec.len(), 8);
    assert_eq!(pack_vec[7], 0);
    match vec_to_packet(pack_vec) {
        Ok(PacketResult::DirectoryResponse(p)) => {
            assert_eq!(p.entries.len(), 0);
            assert_eq!(p.connection_id, 0x0707);
        }
        _ => panic!("expected a directory packet"),
    }
}

#[test]
fn unterminated_record_is_malformed() {
    // a record with no closing separator
    let bytes: Vec<u8> = vec![
        0xBB, 0x50, 0x00, 0x01, 0x01, 0xCC, 0xDD, 0x03, 0xAA, 0xBB, 0x46,
    ];
    match vec_to_packet(bytes) {
        Err(PacketError::MalformedPacket(_)) => {}
        _ => panic!("expected MalformedPacket"),
    }
}

#[test]
fn record_shorter_than_entry_id_is_malformed() {
    // a record of one byte before its separator cannot hold an entry id
    let bytes: Vec<u8> = vec![0xBB, 0x50, 0x00, 0x01, 0x01, 0xCC, 0xDD, 0x02, 0xAA, 0x1E];
    match vec_to_packet(bytes) {
        Err(PacketError::MalformedPacket(_)) => {}
        _ => panic!("expected MalformedPacket"),
    }
}

#[test]
fn entry_name_with_invalid_text_is_malformed() {
    let bytes: Vec<u8> = vec![
        0xBB, 0x50, 0x00, 0x01, 0x01, 0xCC, 0xDD, 0x04, 0xAA, 0xBB, 0xFF, 0x1E,
    ];
    match vec_to_packet(bytes) {
        Err(PacketError::MalformedPacket(_)) => {}
        _ => panic!("expected MalformedPacket"),
    }
}

#[test]
fn empty_entry_name_round_trips() {
    let pack = DirectoryResponsePacket::new(
        vec![DirectoryEntry {
            entry_id: 0x0100,
            name: String::new(),
        }],
        0x0001,
    )
    .unwrap();
    let pack_vec = pack.to_vec();
    match vec_to_packet(pack_vec) {
        Ok(PacketResult::DirectoryResponse(p)) => {
            assert_eq!(p.entries.len(), 1);
            assert_eq!(p.entries[0].entry_id, 0x0100);
            assert_eq!(p.entries[0].name, "");
        }
        _ => panic!("expected a directory packet"),
    }
}
