//! The error response packet: a numeric error id with a short description.

use vstd::prelude::*;
use vstd::string::StrSliceExecFns;
use vstd::utf8::{decode_utf8, encode_utf8, encode_utf8_decode_utf8, valid_utf8};

use crate::packet::{
    bytes_to_string, copy_range, push_bytes, spec_connection_id, spec_frame, PacketError,
    PacketType, packet_to_vec, HEADER_LEN, MAX_PAYLOAD_LEN, PACKET_TYPE_ERROR_RESPONSE,
};

verus! {

/// Payload of an error response: the error id byte followed by the UTF-8
/// bytes of the message.
pub open spec fn spec_error_payload(error_id: u8, message: Seq<char>) -> Seq<u8> {
    seq![error_id] + encode_utf8(message)
}

/// A server-side failure reported back for a request.
pub struct ErrorResponsePacket {
    /// Error ID
    pub error_id: u8,
    /// Connection ID
    pub connection_id: u16,
    /// Brief string describing the error
    pub err_str: String,
}

impl ErrorResponsePacket {
    /// Constructs a new ErrorResponsePacket.
    ///
    /// `connection_id` is typically the ID sent by the RequestPacket.
    pub fn new(error_id: u8, connection_id: u16, err_str: String) -> (r: Result<Self, PacketError>)
        ensures
            r matches Ok(p) && p.error_id == error_id && p.connection_id == connection_id
                && p.err_str == err_str,
    {
        Ok(Self { error_id: error_id, connection_id: connection_id, err_str: err_str })
    }

    /// Convert the vector of bytes into a packet object.
    ///
    /// The payload must hold at least the error id byte; the rest is the
    /// message and must be valid UTF-8.
    pub fn from_vec(vec_packet: Vec<u8>) -> (r: Result<Self, PacketError>)
        ensures
            ({
                let b = vec_packet@;
                if b.len() >= HEADER_LEN + 1 && valid_utf8(
                    b.subrange(HEADER_LEN + 1, b.len() as int),
                ) {
                    r matches Ok(p) && p.error_id == b[HEADER_LEN as int] && p.err_str@
                        == decode_utf8(b.subrange(HEADER_LEN + 1, b.len() as int))
                        && p.connection_id == spec_connection_id(b)
                } else {
                    r matches Err(e) && e is MalformedPacket
                }
            }),
    {
        if vec_packet.len() < HEADER_LEN + 1 {
            return Err(PacketError::MalformedPacket("Packet too short".to_owned()));
        }

        let connection_id: u16 = ((vec_packet[5] as u16) << 8) | (vec_packet[6] as u16);
        let error_id: u8 = vec_packet[8];
        let error_bytes = copy_range(&vec_packet, HEADER_LEN + 1, vec_packet.len());
        match bytes_to_string(error_bytes) {
            Some(err_str) => {
                proof {
                    encode_utf8_decode_utf8(err_str@);
                }
                Ok(Self { error_id: error_id, connection_id: connection_id, err_str: err_str })
            },
            None => Err(PacketError::MalformedPacket("Message is not valid text".to_owned())),
        }
    }

    /// Convert the packet into a vector of bytes that can be sent over the
    /// wire.
    pub fn to_vec(&self) -> (r: Vec<u8>)
        requires
            1 + encode_utf8(self.err_str@).len() <= MAX_PAYLOAD_LEN,
        ensures
            r@ == spec_frame(
                PACKET_TYPE_ERROR_RESPONSE,
                self.connection_id,
                spec_error_payload(self.error_id, self.err_str@),
            ),
    {
        let mut payload: Vec<u8> = vec![self.error_id];
        let message_bytes = self.err_str.as_str().as_bytes_vec();
        push_bytes(&mut payload, &message_bytes);
        assert(payload@ =~= spec_error_payload(self.error_id, self.err_str@));
        packet_to_vec(PacketType::ErrorResponse, payload, self.connection_id).unwrap()
    }
}

} // verus!
