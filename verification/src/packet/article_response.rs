//! The article response packet: the textual content of one resource.

use vstd::prelude::*;
use vstd::string::StrSliceExecFns;
use vstd::utf8::{decode_utf8, encode_utf8, encode_utf8_decode_utf8, valid_utf8};

use crate::packet::{
    bytes_to_string, copy_range, spec_connection_id, spec_frame, spec_payload, PacketError,
    PacketType, packet_to_vec, HEADER_LEN, MAX_PAYLOAD_LEN, PACKET_TYPE_ARTICLE_RESPONSE,
};

verus! {

/// The text of one article, sent back for a request.
pub struct ArticleResponsePacket {
    /// Contents of article
    pub article: String,
    /// Connection ID
    pub connection_id: u16,
}

impl ArticleResponsePacket {
    /// Constructs a new ArticleResponsePacket.
    ///
    /// `connection_id` is typically the ID sent by the RequestPacket.
    pub fn new(article: String, connection_id: u16) -> (r: Result<Self, PacketError>)
        ensures
            r matches Ok(p) && p.article == article && p.connection_id == connection_id,
    {
        Ok(Self { article: article, connection_id: connection_id })
    }

    /// Convert the vector of bytes into a packet object.
    ///
    /// The whole payload is the article text; the bytes must be valid UTF-8.
    pub fn from_vec(vec_packet: Vec<u8>) -> (r: Result<Self, PacketError>)
        ensures
            ({
                let b = vec_packet@;
                if b.len() >= HEADER_LEN && valid_utf8(spec_payload(b)) {
                    r matches Ok(p) && p.article@ == decode_utf8(spec_payload(b))
                        && p.connection_id == spec_connection_id(b)
                } else {
                    r matches Err(e) && e is MalformedPacket
                }
            }),
    {
        if vec_packet.len() < HEADER_LEN {
            return Err(PacketError::MalformedPacket("Packet too short".to_owned()));
        }

        let connection_id: u16 = ((vec_packet[5] as u16) << 8) | (vec_packet[6] as u16);
        let article_bytes = copy_range(&vec_packet, HEADER_LEN, vec_packet.len());
        match bytes_to_string(article_bytes) {
            Some(article) => {
                proof {
                    encode_utf8_decode_utf8(article@);
                }
                Ok(Self { article: article, connection_id: connection_id })
            },
            None => Err(PacketError::MalformedPacket("Payload is not valid text".to_owned())),
        }
    }

    /// Convert the packet into a vector of bytes that can be sent over the
    /// wire.
    pub fn to_vec(&self) -> (r: Vec<u8>)
        requires
            encode_utf8(self.article@).len() <= MAX_PAYLOAD_LEN,
        ensures
            r@ == spec_frame(
                PACKET_TYPE_ARTICLE_RESPONSE,
                self.connection_id,
                encode_utf8(self.article@),
            ),
    {
        let payload: Vec<u8> = self.article.as_str().as_bytes_vec();
        packet_to_vec(PacketType::ArticleResponse, payload, self.connection_id).unwrap()
    }
}

} // verus!
