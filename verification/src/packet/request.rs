//! The request packet: a client asks for a resource by numeric id.

use vstd::prelude::*;

use crate::packet::{
    spec_frame, u16_hi, u16_lo, u16_of_bytes, lemma_u16_to_bytes_to_u16, PacketError, PacketType,
    packet_to_vec, HEADER_LEN, PACKET_TYPE_REQUEST,
};
use rand::Rng;
use rand::SeedableRng;
use rand::rngs::SmallRng;

verus! {

/// Payload of a request: the resource id as two big-endian bytes.
pub open spec fn spec_request_payload(resource_num: u16) -> Seq<u8> {
    seq![u16_hi(resource_num), u16_lo(resource_num)]
}

/// A request for one resource, addressed by its numeric id.
pub struct RequestPacket {
    /// The ID of the directory entry to request
    pub resource_num: u16,
    /// The connection ID. This isn't set if we're constructing a fresh
    /// request packet, but will be set if we're building from a vec.
    pub connection_id: Option<u16>,
}

/// Relies on rand's `SmallRng` (seeded from the thread-local generator) to
/// draw a 16-bit connection id; nothing is promised of the value drawn.
#[verifier::external_body]
fn fresh_connection_id() -> u16 {
    let mut rng = SmallRng::from_rng(&mut rand::rng());
    rng.random()
}

impl RequestPacket {
    /// Constructs a new RequestPacket with no connection id assigned yet.
    pub fn new(resource_num: u16) -> (r: Result<Self, PacketError>)
        ensures
            r matches Ok(p) && p.resource_num == resource_num && p.connection_id is None,
    {
        Ok(Self { resource_num: resource_num, connection_id: None })
    }

    /// Convert the vector of bytes into a packet object.
    ///
    /// The frame must be exactly 8 header bytes plus the 2-byte payload; the
    /// connection id is always taken over from the header.
    pub fn from_vec(vec_packet: Vec<u8>) -> (r: Result<Self, PacketError>)
        ensures
            ({
                let b = vec_packet@;
                if b.len() == HEADER_LEN + 2 {
                    r matches Ok(p) && p.resource_num == u16_of_bytes(b[8], b[9])
                        && p.connection_id == Some(u16_of_bytes(b[5], b[6]))
                } else {
                    r matches Err(e) && e is MalformedPacket
                }
            }),
    {
        if vec_packet.len() != HEADER_LEN + 2 {
            return Err(PacketError::MalformedPacket("Wrong packet length".to_owned()));
        }

        let connection_id: u16 = ((vec_packet[5] as u16) << 8) | (vec_packet[6] as u16);
        let resource_num: u16 = ((vec_packet[8] as u16) << 8) | (vec_packet[9] as u16);

        Ok(Self { resource_num: resource_num, connection_id: Some(connection_id) })
    }

    /// Convert the packet into a vector of bytes that can be sent over the
    /// wire.
    ///
    /// A packet without a connection id gets a freshly drawn one, observable
    /// only in the produced bytes.
    pub fn to_vec(&self) -> (r: Vec<u8>)
        ensures
            r@ == spec_frame(
                PACKET_TYPE_REQUEST,
                u16_of_bytes(r@[5], r@[6]),
                spec_request_payload(self.resource_num),
            ),
            self.connection_id matches Some(id) ==> u16_of_bytes(r@[5], r@[6]) == id,
    {
        let n = self.resource_num;
        assert((n >> 8) & 0xFF <= 0xFF && n & 0xFF <= 0xFF) by (bit_vector);
        let resource_num_big: u8 = ((n >> 8) & 0xFF) as u8;
        let resource_num_small: u8 = (n & 0xFF) as u8;
        assert(((n >> 8) & 0xFF) as u8 == u16_hi(n) && (n & 0xFF) as u8 == u16_lo(n))
            by (bit_vector);

        let connection_id = match self.connection_id {
            Some(id) => id,
            None => fresh_connection_id(),
        };

        let payload: Vec<u8> = vec![resource_num_big, resource_num_small];
        assert(payload@ =~= spec_request_payload(self.resource_num));
        let out = packet_to_vec(PacketType::Request, payload, connection_id).unwrap();
        proof {
            lemma_u16_to_bytes_to_u16(connection_id);
            assert(out@[5] == u16_hi(connection_id) && out@[6] == u16_lo(connection_id));
        }
        out
    }
}

} // verus!
