//! The shared packet framing: header layout, type registry, and the two
//! facade functions that turn packets into wire bytes and back.

use vstd::prelude::*;
use vstd::utf8::{
    decode_utf8, encode_utf8, encode_utf8_decode_utf8, encode_utf8_valid_utf8, valid_utf8,
};

pub mod article_response;
pub mod directory_response;
pub mod error_response;
pub mod request;

use crate::packet::article_response::ArticleResponsePacket;
use crate::packet::directory_response::{
    entries_id_sep_free, entries_wf, lemma_parse_entries_of_encode, spec_entries_bytes,
    spec_parse_entries, DirectoryResponsePacket,
};
use crate::packet::error_response::{spec_error_payload, ErrorResponsePacket};
use crate::packet::request::{spec_request_payload, RequestPacket};

verus! {

/// Relies on `String::from_utf8`: it succeeds exactly on input that is valid
/// UTF-8 and then returns the string whose UTF-8 encoding is that input.
#[verifier::external_body]
pub(crate) fn bytes_to_string(bytes: Vec<u8>) -> (r: Option<String>)
    ensures
        r is Some <==> valid_utf8(bytes@),
        r matches Some(s) ==> encode_utf8(s@) == bytes@,
{
    String::from_utf8(bytes).ok()
}

/// First byte of the magic number that opens every frame.
pub const MAGIC_NUM_BE: u8 = 0xBB;
/// Second byte of the magic number that opens every frame.
pub const MAGIC_NUM_LE: u8 = 0x50;
/// The magic number as one 16-bit value.
pub const MAGIC_NUM: u16 = ((MAGIC_NUM_BE as u16) << 8) | (MAGIC_NUM_LE as u16);
/// First byte of the protocol version this library speaks.
pub const PROTOCOL_VERSION_BE: u8 = 0x00;
/// Second byte of the protocol version this library speaks.
pub const PROTOCOL_VERSION_LE: u8 = 0x01;
/// The protocol version as one 16-bit value; peers declaring a newer one are rejected.
pub const PROTOCOL_VERSION: u16 = ((PROTOCOL_VERSION_BE as u16) << 8) | (PROTOCOL_VERSION_LE as u16);

/// Type tag of a request packet.
pub const PACKET_TYPE_REQUEST: u8 = 0x00;
/// Type tag of a directory response packet.
pub const PACKET_TYPE_DIRECTORY_RESPONSE: u8 = 0x01;
/// Type tag of an article response packet.
pub const PACKET_TYPE_ARTICLE_RESPONSE: u8 = 0x02;
/// Type tag of an error response packet.
pub const PACKET_TYPE_ERROR_RESPONSE: u8 = 0x03;

/// Number of bytes in the fixed header that precedes every payload.
pub const HEADER_LEN: usize = 8;

/// Largest payload that fits behind the single length byte of a header.
pub const MAX_PAYLOAD_LEN: usize = 255;

/// High byte of a 16-bit value as it is laid out big-endian on the wire.
pub open spec fn u16_hi(x: u16) -> u8 {
    (x >> 8) as u8
}

/// Low byte of a 16-bit value as it is laid out big-endian on the wire.
pub open spec fn u16_lo(x: u16) -> u8 {
    (x & 0xFF) as u8
}

/// The 16-bit value read big-endian from two wire bytes.
pub open spec fn u16_of_bytes(hi: u8, lo: u8) -> u16 {
    ((hi as u16) << 8) | (lo as u16)
}

/// Splitting a 16-bit value into its wire bytes and reading them back is the
/// identity.
pub proof fn lemma_u16_to_bytes_to_u16(x: u16)
    by (bit_vector)
    ensures
        u16_of_bytes(u16_hi(x), u16_lo(x)) == x,
{
}

/// The fixed 8-byte header: magic number, version, type tag, connection id,
/// payload length, every multi-byte field big-endian.
pub open spec fn spec_header(type_tag: u8, connection_id: u16, payload_len: u8) -> Seq<u8> {
    seq![
        MAGIC_NUM_BE,
        MAGIC_NUM_LE,
        PROTOCOL_VERSION_BE,
        PROTOCOL_VERSION_LE,
        type_tag,
        u16_hi(connection_id),
        u16_lo(connection_id),
        payload_len,
    ]
}

/// A whole frame: the header followed by the payload it describes.
pub open spec fn spec_frame(type_tag: u8, connection_id: u16, payload: Seq<u8>) -> Seq<u8>
    recommends
        payload.len() <= MAX_PAYLOAD_LEN,
{
    spec_header(type_tag, connection_id, payload.len() as u8) + payload
}

/// The payload bytes of a frame: everything after the fixed header.
pub open spec fn spec_payload(b: Seq<u8>) -> Seq<u8>
    recommends
        b.len() >= HEADER_LEN,
{
    b.subrange(HEADER_LEN as int, b.len() as int)
}

/// The connection id carried in a frame's header.
pub open spec fn spec_connection_id(b: Seq<u8>) -> u16
    recommends
        b.len() >= HEADER_LEN,
{
    u16_of_bytes(b[5], b[6])
}

/// The length byte of a successful frame equals the payload length, the frame
/// is exactly 8 bytes longer than the payload, and the payload follows the
/// header unchanged.
pub proof fn lemma_frame_length(type_tag: u8, connection_id: u16, payload: Seq<u8>)
    requires
        payload.len() <= MAX_PAYLOAD_LEN,
    ensures
        spec_frame(type_tag, connection_id, payload).len() == HEADER_LEN + payload.len(),
        spec_frame(type_tag, connection_id, payload)[7] == payload.len() as u8,
        spec_payload(spec_frame(type_tag, connection_id, payload)) == payload,
{
    assert(spec_payload(spec_frame(type_tag, connection_id, payload)) =~= payload);
}

/// Defines the different types of packets.
pub enum PacketType {
    Request,
    DirectoryResponse,
    ArticleResponse,
    ErrorResponse,
}

/// The wire tag of each packet type.
pub open spec fn spec_type_tag(t: PacketType) -> u8 {
    match t {
        PacketType::Request => PACKET_TYPE_REQUEST,
        PacketType::DirectoryResponse => PACKET_TYPE_DIRECTORY_RESPONSE,
        PacketType::ArticleResponse => PACKET_TYPE_ARTICLE_RESPONSE,
        PacketType::ErrorResponse => PACKET_TYPE_ERROR_RESPONSE,
    }
}

impl PacketType {
    /// Transforms a packet type into its ID number.
    pub fn value(&self) -> (v: u8)
        ensures
            v == spec_type_tag(*self),
    {
        match *self {
            PacketType::Request => PACKET_TYPE_REQUEST,
            PacketType::DirectoryResponse => PACKET_TYPE_DIRECTORY_RESPONSE,
            PacketType::ArticleResponse => PACKET_TYPE_ARTICLE_RESPONSE,
            PacketType::ErrorResponse => PACKET_TYPE_ERROR_RESPONSE,
        }
    }
}

/// Everything that can go wrong while encoding or decoding a packet.
#[derive(Debug)]
pub enum PacketError {
    /// The bytes at hand do not form a packet; the text says why.
    MalformedPacket(String),
    /// The sender declared a protocol version newer than the one supported,
    /// which is carried along.
    ProtocolVersion(u16),
    /// The type tag matches no known packet type.
    UnknownPacketType(u8),
    /// Payload too big. First number is the limit, second number is how big
    /// the payload is.
    PayloadTooLarge(u8, u32),
}

/// Appends every byte of `src` to `dst`.
pub(crate) fn push_bytes(dst: &mut Vec<u8>, src: &Vec<u8>)
    ensures
        final(dst)@ == old(dst)@ + src@,
{
    let ghost snap = dst@;
    let mut j: usize = 0;
    while j < src.len()
        invariant
            j <= src@.len(),
            dst@ == snap + src@.take(j as int),
        decreases src@.len() - j,
    {
        dst.push(src[j]);
        assert(snap + src@.take(j + 1) =~= (snap + src@.take(j as int)).push(src@[j as int]));
        j += 1;
    }
    assert(snap + src@.take(src@.len() as int) =~= snap + src@);
}

/// Copies the bytes of `src` from `from` (inclusive) to `to` (exclusive) into
/// a fresh vector.
pub(crate) fn copy_range(src: &Vec<u8>, from: usize, to: usize) -> (r: Vec<u8>)
    requires
        from <= to <= src@.len(),
    ensures
        r@ == src@.subrange(from as int, to as int),
{
    let mut out: Vec<u8> = Vec::new();
    let mut j: usize = from;
    while j < to
        invariant
            from <= j <= to <= src@.len(),
            out@ == src@.subrange(from as int, j as int),
        decreases to - j,
    {
        out.push(src[j]);
        assert(src@.subrange(from as int, j + 1) =~= src@.subrange(from as int, j as int).push(
            src@[j as int],
        ));
        j += 1;
    }
    out
}

/// Transforms a packet type, payload, and connection ID into a vector of
/// bytes to be sent over the wire.
///
/// Usually, this isn't called directly. Instead, call `to_vec()` on the
/// packet object.
pub fn packet_to_vec(packet_type: PacketType, payload: Vec<u8>, connection_id: u16) -> (r: Result<
    Vec<u8>,
    PacketError,
>)
    ensures
        payload@.len() <= MAX_PAYLOAD_LEN ==> (r matches Ok(v) && v@ == spec_frame(
            spec_type_tag(packet_type),
            connection_id,
            payload@,
        )),
        payload@.len() > MAX_PAYLOAD_LEN ==> r == Err::<Vec<u8>, PacketError>(
            PacketError::PayloadTooLarge(MAX_PAYLOAD_LEN as u8, payload@.len() as u32),
        ),
{
    let payload_len = payload.len();
    if payload_len > MAX_PAYLOAD_LEN {
        return Err(
            PacketError::PayloadTooLarge(
                MAX_PAYLOAD_LEN as u8,
                #[verifier::truncate] (payload_len as u32),
            ),
        );
    }

    assert(connection_id >> 8 <= 0xFF && connection_id & 0xFF <= 0xFF) by (bit_vector);

    let mut out_vec: Vec<u8> = Vec::new();
    out_vec.push(MAGIC_NUM_BE);
    out_vec.push(MAGIC_NUM_LE);
    out_vec.push(PROTOCOL_VERSION_BE);
    out_vec.push(PROTOCOL_VERSION_LE);
    out_vec.push(packet_type.value());
    out_vec.push((connection_id >> 8) as u8);
    out_vec.push((connection_id & 0xFF) as u8);
    out_vec.push(payload_len as u8);
    push_bytes(&mut out_vec, &payload);

    assert(out_vec@ =~= spec_frame(spec_type_tag(packet_type), connection_id, payload@));

    Ok(out_vec)
}

/// Different types of packets.
pub enum PacketResult {
    Request(RequestPacket),
    DirectoryResponse(DirectoryResponsePacket),
    ArticleResponse(ArticleResponsePacket),
    ErrorResponse(ErrorResponsePacket),
}

/// What `vec_to_packet` returns for the bytes `b`: the checks of the header
/// codec in order (length, magic number, version, declared against actual
/// payload length), then the payload decoded as the type tag directs, or
/// `UnknownPacketType` for a tag outside the registry.
pub open spec fn vec_to_packet_post(b: Seq<u8>, r: Result<PacketResult, PacketError>) -> bool {
    if b.len() < HEADER_LEN || b[0] != MAGIC_NUM_BE || b[1] != MAGIC_NUM_LE {
        r matches Err(e) && e is MalformedPacket
    } else if u16_of_bytes(b[2], b[3]) > PROTOCOL_VERSION {
        r == Err::<PacketResult, PacketError>(PacketError::ProtocolVersion(PROTOCOL_VERSION))
    } else if b.len() as int != HEADER_LEN as int + b[7] as int {
        r matches Err(e) && e is MalformedPacket
    } else if b[4] == PACKET_TYPE_REQUEST {
        if b.len() == HEADER_LEN + 2 {
            r matches Ok(pr) && pr matches PacketResult::Request(p) && p.resource_num
                == u16_of_bytes(b[8], b[9]) && p.connection_id == Some(spec_connection_id(b))
        } else {
            r matches Err(e) && e is MalformedPacket
        }
    } else if b[4] == PACKET_TYPE_DIRECTORY_RESPONSE {
        match spec_parse_entries(spec_payload(b)) {
            Some(es) => r matches Ok(pr) && pr matches PacketResult::DirectoryResponse(p)
                && p.entries.deep_view() == es && p.connection_id == spec_connection_id(b),
            None => r matches Err(e) && e is MalformedPacket,
        }
    } else if b[4] == PACKET_TYPE_ARTICLE_RESPONSE {
        if valid_utf8(spec_payload(b)) {
            r matches Ok(pr) && pr matches PacketResult::ArticleResponse(p) && p.article@
                == decode_utf8(spec_payload(b)) && p.connection_id == spec_connection_id(b)
        } else {
            r matches Err(e) && e is MalformedPacket
        }
    } else if b[4] == PACKET_TYPE_ERROR_RESPONSE {
        if b.len() >= HEADER_LEN + 1 && valid_utf8(b.subrange(HEADER_LEN + 1, b.len() as int)) {
            r matches Ok(pr) && pr matches PacketResult::ErrorResponse(p) && p.error_id == b[
                HEADER_LEN as int
            ] && p.err_str@ == decode_utf8(b.subrange(HEADER_LEN + 1, b.len() as int))
                && p.connection_id == spec_connection_id(b)
        } else {
            r matches Err(e) && e is MalformedPacket
        }
    } else {
        r == Err::<PacketResult, PacketError>(PacketError::UnknownPacketType(b[4]))
    }
}

/// Transforms a vector of bytes into a packet object.
///
/// This is the single point where wire bytes become a typed value: the
/// header is validated and stripped, and the type tag picks the payload
/// decoder.
pub fn vec_to_packet(vec_packet: Vec<u8>) -> (r: Result<PacketResult, PacketError>)
    ensures
        vec_to_packet_post(vec_packet@, r),
{
    if vec_packet.len() < HEADER_LEN {
        return Err(PacketError::MalformedPacket("Packet too short".to_owned()));
    }

    let m0 = vec_packet[0];
    let m1 = vec_packet[1];
    let magic_num: u16 = ((m0 as u16) << 8) | (m1 as u16);
    assert(MAGIC_NUM == 0xBB50) by (bit_vector);
    assert((((m0 as u16) << 8) | (m1 as u16)) == 0xBB50 <==> (m0 == 0xBB && m1 == 0x50))
        by (bit_vector);
    if MAGIC_NUM != magic_num {
        return Err(PacketError::MalformedPacket("Unrecognized magic number".to_owned()));
    }

    let protocol_version: u16 = ((vec_packet[2] as u16) << 8) | (vec_packet[3] as u16);
    if PROTOCOL_VERSION < protocol_version {
        return Err(PacketError::ProtocolVersion(PROTOCOL_VERSION));
    }

    let declared_len: usize = vec_packet[7] as usize;
    if vec_packet.len() != HEADER_LEN + declared_len {
        return Err(
            PacketError::MalformedPacket("Declared payload length is wrong".to_owned()),
        );
    }

    let packet_type = vec_packet[4];
    if packet_type == PACKET_TYPE_REQUEST {
        match RequestPacket::from_vec(vec_packet) {
            Ok(p) => Ok(PacketResult::Request(p)),
            Err(e) => Err(e),
        }
    } else if packet_type == PACKET_TYPE_DIRECTORY_RESPONSE {
        match DirectoryResponsePacket::from_vec(vec_packet) {
            Ok(p) => Ok(PacketResult::DirectoryResponse(p)),
            Err(e) => Err(e),
        }
    } else if packet_type == PACKET_TYPE_ARTICLE_RESPONSE {
        match ArticleResponsePacket::from_vec(vec_packet) {
            Ok(p) => Ok(PacketResult::ArticleResponse(p)),
            Err(e) => Err(e),
        }
    } else if packet_type == PACKET_TYPE_ERROR_RESPONSE {
        match ErrorResponsePacket::from_vec(vec_packet) {
            Ok(p) => Ok(PacketResult::ErrorResponse(p)),
            Err(e) => Err(e),
        }
    } else {
        Err(PacketError::UnknownPacketType(packet_type))
    }
}

/// The header fields read back from a frame are the ones it was built from.
pub proof fn lemma_frame_fields(type_tag: u8, connection_id: u16, payload: Seq<u8>)
    requires
        payload.len() <= MAX_PAYLOAD_LEN,
    ensures
        ({
            let b = spec_frame(type_tag, connection_id, payload);
            &&& b.len() == HEADER_LEN + payload.len()
            &&& b[0] == MAGIC_NUM_BE
            &&& b[1] == MAGIC_NUM_LE
            &&& u16_of_bytes(b[2], b[3]) == PROTOCOL_VERSION
            &&& b[4] == type_tag
            &&& spec_connection_id(b) == connection_id
            &&& b[7] as int == payload.len()
            &&& spec_payload(b) == payload
        }),
{
    let b = spec_frame(type_tag, connection_id, payload);
    lemma_frame_length(type_tag, connection_id, payload);
    assert(b[2] == PROTOCOL_VERSION_BE && b[3] == PROTOCOL_VERSION_LE);
    assert(u16_of_bytes(PROTOCOL_VERSION_BE, PROTOCOL_VERSION_LE) == PROTOCOL_VERSION)
        by (bit_vector);
    lemma_u16_to_bytes_to_u16(connection_id);
    assert(b[5] == u16_hi(connection_id) && b[6] == u16_lo(connection_id));
}

/// Round trip for a request: the frame a request was encoded into decodes
/// back to the request, carrying the connection id it was encoded under.  A
/// request that had no id yet is encoded under a freshly drawn one, so it
/// comes back with exactly that id filled in.
pub proof fn lemma_round_trip_request(
    resource_num: u16,
    connection_id: u16,
    r: Result<PacketResult, PacketError>,
)
    requires
        vec_to_packet_post(
            spec_frame(PACKET_TYPE_REQUEST, connection_id, spec_request_payload(resource_num)),
            r,
        ),
    ensures
        r matches Ok(pr) && pr matches PacketResult::Request(p) && p.resource_num == resource_num
            && p.connection_id == Some(connection_id),
{
    let payload = spec_request_payload(resource_num);
    let b = spec_frame(PACKET_TYPE_REQUEST, connection_id, payload);
    lemma_frame_fields(PACKET_TYPE_REQUEST, connection_id, payload);
    assert(b[8] == u16_hi(resource_num) && b[9] == u16_lo(resource_num)) by {
        assert(spec_payload(b)[0] == u16_hi(resource_num));
        assert(spec_payload(b)[1] == u16_lo(resource_num));
    }
    lemma_u16_to_bytes_to_u16(resource_num);
}

/// Round trip for a directory listing: the frame it was encoded into decodes
/// back to the same entries, in the same order, under the same connection
/// id.  The entries must keep the name invariant, and their id bytes must
/// differ from the record separator, which the wire format reserves.
pub proof fn lemma_round_trip_directory(
    es: Seq<(u16, Seq<char>)>,
    connection_id: u16,
    r: Result<PacketResult, PacketError>,
)
    requires
        entries_wf(es),
        entries_id_sep_free(es),
        spec_entries_bytes(es).len() <= MAX_PAYLOAD_LEN,
        vec_to_packet_post(
            spec_frame(PACKET_TYPE_DIRECTORY_RESPONSE, connection_id, spec_entries_bytes(es)),
            r,
        ),
    ensures
        r matches Ok(pr) && pr matches PacketResult::DirectoryResponse(p) && p.entries.deep_view()
            == es && p.connection_id == connection_id,
{
    let payload = spec_entries_bytes(es);
    lemma_frame_fields(PACKET_TYPE_DIRECTORY_RESPONSE, connection_id, payload);
    lemma_parse_entries_of_encode(es);
}

/// Round trip for an article: the frame it was encoded into decodes back to
/// the same text under the same connection id.
pub proof fn lemma_round_trip_article(
    article: Seq<char>,
    connection_id: u16,
    r: Result<PacketResult, PacketError>,
)
    requires
        encode_utf8(article).len() <= MAX_PAYLOAD_LEN,
        vec_to_packet_post(
            spec_frame(PACKET_TYPE_ARTICLE_RESPONSE, connection_id, encode_utf8(article)),
            r,
        ),
    ensures
        r matches Ok(pr) && pr matches PacketResult::ArticleResponse(p) && p.article@ == article
            && p.connection_id == connection_id,
{
    lemma_frame_fields(PACKET_TYPE_ARTICLE_RESPONSE, connection_id, encode_utf8(article));
    encode_utf8_valid_utf8(article);
    encode_utf8_decode_utf8(article);
}

/// Round trip for an error response: the frame it was encoded into decodes
/// back to the same error id and message under the same connection id.
pub proof fn lemma_round_trip_error(
    error_id: u8,
    message: Seq<char>,
    connection_id: u16,
    r: Result<PacketResult, PacketError>,
)
    requires
        1 + encode_utf8(message).len() <= MAX_PAYLOAD_LEN,
        vec_to_packet_post(
            spec_frame(
                PACKET_TYPE_ERROR_RESPONSE,
                connection_id,
                spec_error_payload(error_id, message),
            ),
            r,
        ),
    ensures
        r matches Ok(pr) && pr matches PacketResult::ErrorResponse(p) && p.error_id == error_id
            && p.err_str@ == message && p.connection_id == connection_id,
{
    let payload = spec_error_payload(error_id, message);
    let b = spec_frame(PACKET_TYPE_ERROR_RESPONSE, connection_id, payload);
    lemma_frame_fields(PACKET_TYPE_ERROR_RESPONSE, connection_id, payload);
    assert(b[8] == error_id) by {
        assert(spec_payload(b)[0] == error_id);
    }
    assert(b.subrange(HEADER_LEN + 1, b.len() as int) =~= encode_utf8(message));
    encode_utf8_valid_utf8(message);
    encode_utf8_decode_utf8(message);
}

} // verus!
