use gopherwire::packet;
use gopherwire::packet::article_response::ArticleResponsePacket;
use gopherwire::packet::{vec_to_packet, PacketError, PacketResult, PacketType};

#[test]
fn article_response_packet() {
    let pack_result = ArticleResponsePacket::new("foobarbaz".to_string(), 0x1234);

    assert_eq!(pack_result.is_ok(), true);
}

#[test]
fn article_response_packet_serialize() {
    let pack = ArticleResponsePacket::new("foobarbaz".to_string(), 0x1234).unwrap();
    let pack_vec = pack.to_vec();

    let mut expect_vec: Vec<u8> = vec![
        packet::MAGIC_NUM_BE,
        packet::MAGIC_NUM_LE,
        packet::PROTOCOL_VERSION_BE,
        packet::PROTOCOL_VERSION_LE,
        PacketType::ArticleResponse.value(),
        // Connection ID
        0x12,
        0x34,
        9, // Length
    ];
    expect_vec.extend("foobarbaz".as_bytes());

    assert_eq!(pack_vec, expect_vec);
}

#[test]
fn article_response_packet_deserialize() {
    let pack = ArticleResponsePacket::new("foo".to_string(), 0xAB12).unwrap();
    let pack_vec = pack.to_vec();

    let new_pack = ArticleResponsePacket::from_vec(pack_vec).unwrap();
    assert_eq!(pack.connection_id, new_pack.connection_id);
    assert_eq!(pack.article, new_pack.article);
}

#[test]
fn article_with_non_ascii_text_round_trips() {
    let text = "sn\u{f6}man \u{2603} and g\u{f8}pher";
    let pack = ArticleResponsePacket::new(text.to_string(), 0x7788).unwrap();
    let pack_vec = pack.to_vec();
    match vec_to_packet(pack_vec) {
        Ok(PacketResult::ArticleResponse(p)) => {
            assert_eq!(p.article, text);
            assert_eq!(p.connection_id, 0x7788);
        }
        _ => panic!("expected an article packet"),
    }
}

#[test]
fn empty_article_round_trips() {
    let pack = ArticleResponsePacket::new(String::new(), 0x0001).unwrap();
    let pack_vec = pack.to_vec();
    assert_eq!(pack_vec.len(), 8);
    match vec_to_packet(pack_vec) {
        Ok(PacketResult::ArticleResponse(p)) => {
            assert_eq!(p.article, "");
            assert_eq!(p.connection_id, 0x0001);
        }
        _ => panic!("expected an article packet"),
    }
}

#[test]
fn article_with_invalid_text_is_malformed() {
    // 0xFF can never open a UTF-8 encoded character
    let bytes: Vec<u8> = vec![0xBB, 0x50, 0x00, 0x01, 0x02, 0x12, 0x34, 0x01, 0xFF];
    match vec_to_packet(bytes) {
        Err(PacketError::MalformedPacket(_)) => {}
        _ => panic!("expected MalformedPacket"),
    }
}
