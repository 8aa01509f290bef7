//! A small binary wire protocol for a connection-oriented request/response
//! exchange between a client and a directory/content server.
//!
//! Every packet starts with a fixed 8-byte header (magic number, protocol
//! version, type tag, connection id, payload length) followed by a payload of
//! at most 255 bytes whose layout depends on the packet type.  The codecs in
//! [`packet`] turn typed packet values into wire bytes and back.

use vstd::prelude::*;

pub mod packet;

verus! {

/// Highest payload size, in bytes, that the length byte of a header can carry.
pub const MAX_PAYLOAD_LEN: usize = 255;

/// The magic number that opens every frame.
pub const MAGIC_NUM: u16 = 0xBB50;
/// The protocol version this library speaks.
pub const PROTOCOL_VERSION: u16 = 0x0001;
/// Type tag of a request packet.
pub const PACKET_ID_REQUEST: u8 = 0x00;

/// Error raised when building a raw request frame.
#[derive(Debug)]
pub enum PacketError {
    PayloadTooLarge,
}

/// A raw request frame with the header fields stored alongside the payload.
pub struct RequestPacket {
    pub magic_num: u16,
    pub version: u16,
    pub packet_type: u8,
    pub payload_length: u8,
    pub payload: Vec<u8>,
}

impl RequestPacket {
    /// Builds a raw request frame around `payload`, which must fit in the
    /// single length byte of the header.
    pub fn new(payload: Vec<u8>) -> (r: Result<Self, PacketError>)
        ensures
            payload@.len() <= MAX_PAYLOAD_LEN ==> (r matches Ok(p)
                && p.magic_num == MAGIC_NUM
                && p.version == PROTOCOL_VERSION
                && p.packet_type == PACKET_ID_REQUEST
                && p.payload_length == payload@.len()
                && p.payload@ == payload@),
            payload@.len() > MAX_PAYLOAD_LEN ==> (r matches Err(e)
                && e is PayloadTooLarge),
    {
        let len = payload.len();
        if len > MAX_PAYLOAD_LEN {
            return Err(PacketError::PayloadTooLarge);
        }

        let u8_len = len as u8;

        Ok(Self {
            magic_num: MAGIC_NUM,
            version: PROTOCOL_VERSION,
            packet_type: PACKET_ID_REQUEST,
            payload_length: u8_len,
            payload: payload,
        })
    }
}

} // verus!
