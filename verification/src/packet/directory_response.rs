//! The directory response packet: an ordered listing of sub-resources, each
//! a numeric id with a display name, separated on the wire by a reserved
//! record-separator byte.

use vstd::prelude::*;
use vstd::string::StrSliceExecFns;
use vstd::utf8::{
    decode_utf8, encode_utf8, encode_utf8_decode_utf8, encode_utf8_valid_utf8, valid_utf8,
};

use crate::packet::{
    bytes_to_string, copy_range, spec_connection_id, spec_frame, spec_payload, u16_hi, u16_lo,
    u16_of_bytes, lemma_u16_to_bytes_to_u16, PacketError, PacketType, packet_to_vec, HEADER_LEN,
    MAX_PAYLOAD_LEN, PACKET_TYPE_DIRECTORY_RESPONSE,
};

verus! {

/// The byte that closes every directory record on the wire; a name must not
/// contain it.
pub const RECORD_SEPARATOR: u8 = 0x1E;

/// One entry of a directory listing.
pub struct DirectoryEntry {
    /// A unique ID for this entry in the directory
    pub entry_id: u16,
    /// A short human-readable label for the entry
    pub name: String,
}

impl View for DirectoryEntry {
    type V = (u16, Seq<char>);

    open spec fn view(&self) -> (u16, Seq<char>) {
        (self.entry_id, self.name@)
    }
}

impl DeepView for DirectoryEntry {
    type V = (u16, Seq<char>);

    open spec fn deep_view(&self) -> (u16, Seq<char>) {
        self@
    }
}

/// Wire record of one entry: the id as two big-endian bytes, the UTF-8 bytes
/// of the name, and the closing record separator.
pub open spec fn spec_entry_bytes(e: (u16, Seq<char>)) -> Seq<u8> {
    seq![u16_hi(e.0), u16_lo(e.0)] + encode_utf8(e.1) + seq![RECORD_SEPARATOR]
}

/// Payload of a directory response: the records of all entries, in listing
/// order; an empty listing has an empty payload.
pub open spec fn spec_entries_bytes(es: Seq<(u16, Seq<char>)>) -> Seq<u8>
    decreases es.len(),
{
    if es.len() == 0 {
        Seq::empty()
    } else {
        spec_entry_bytes(es[0]) + spec_entries_bytes(es.drop_first())
    }
}

/// The invariant a directory entry must keep: its name must not contain the
/// record-separator byte, which is reserved as the entry delimiter.
pub open spec fn entry_wf(e: (u16, Seq<char>)) -> bool {
    !encode_utf8(e.1).contains(RECORD_SEPARATOR)
}

/// All entries of a listing keep the name invariant.
pub open spec fn entries_wf(es: Seq<(u16, Seq<char>)>) -> bool {
    forall|i: int| 0 <= i < es.len() ==> entry_wf(#[trigger] es[i])
}

/// Neither wire byte of the entry id equals the record separator.  The wire
/// format cannot distinguish such an id byte from a delimiter, so only
/// entries with this property survive a round trip.
pub open spec fn entry_id_sep_free(e: (u16, Seq<char>)) -> bool {
    u16_hi(e.0) != RECORD_SEPARATOR && u16_lo(e.0) != RECORD_SEPARATOR
}

/// All entries of a listing have separator-free id bytes.
pub open spec fn entries_id_sep_free(es: Seq<(u16, Seq<char>)>) -> bool {
    forall|i: int| 0 <= i < es.len() ==> entry_id_sep_free(#[trigger] es[i])
}

/// The entries read off a directory payload, if it parses: repeatedly take
/// the bytes up to the first record separator as one record, whose first two
/// bytes are the entry id and whose remainder is the name.  A record shorter
/// than two bytes, a name that is not valid UTF-8, or trailing bytes with no
/// separator make the whole payload unparseable.
pub open spec fn spec_parse_entries(p: Seq<u8>) -> Option<Seq<(u16, Seq<char>)>>
    decreases p.len(),
{
    if p.len() == 0 {
        Some(Seq::empty())
    } else {
        match p.index_of_first(RECORD_SEPARATOR) {
            Some(k) => if !(2 <= k < p.len()) {
                None
            } else if !valid_utf8(p.subrange(2, k)) {
                None
            } else {
                match spec_parse_entries(p.subrange(k + 1, p.len() as int)) {
                    Some(rest) => Some(
                        seq![(u16_of_bytes(p[0], p[1]), decode_utf8(p.subrange(2, k)))] + rest,
                    ),
                    None => None,
                }
            },
            None => None,
        }
    }
}

/// Appending one entry to a listing appends its record to the payload.
pub proof fn lemma_entries_bytes_push(es: Seq<(u16, Seq<char>)>, e: (u16, Seq<char>))
    ensures
        spec_entries_bytes(es.push(e)) == spec_entries_bytes(es) + spec_entry_bytes(e),
    decreases es.len(),
{
    let pushed = es.push(e);
    if es.len() == 0 {
        assert(pushed[0] == e);
        assert(pushed.drop_first() =~= Seq::<(u16, Seq<char>)>::empty());
        assert(spec_entries_bytes(pushed.drop_first()) == Seq::<u8>::empty());
        assert(spec_entries_bytes(pushed) == spec_entry_bytes(e) + Seq::<u8>::empty());
        assert(spec_entry_bytes(e) + Seq::<u8>::empty() =~= Seq::<u8>::empty() + spec_entry_bytes(
            e,
        ));
    } else {
        assert(pushed[0] == es[0]);
        assert(pushed.drop_first() =~= es.drop_first().push(e));
        lemma_entries_bytes_push(es.drop_first(), e);
        assert(spec_entries_bytes(pushed) == spec_entry_bytes(es[0]) + (spec_entries_bytes(
            es.drop_first(),
        ) + spec_entry_bytes(e)));
        assert(spec_entry_bytes(es[0]) + (spec_entries_bytes(es.drop_first()) + spec_entry_bytes(e))
            =~= (spec_entry_bytes(es[0]) + spec_entries_bytes(es.drop_first())) + spec_entry_bytes(
            e,
        ));
    }
}

/// If `x` occurs at `k` in `p` and nowhere earlier, `index_of_first` finds
/// exactly `k`.
proof fn lemma_index_of_first_at(p: Seq<u8>, x: u8, k: int)
    requires
        0 <= k < p.len(),
        p[k] == x,
        forall|j: int| 0 <= j < k ==> p[j] != x,
    ensures
        p.index_of_first(x) == Some(k),
{
    p.index_of_first_ensures(x);
    assert(p.contains(x)) by {
        assert(0 <= k < p.len() && p[k] == x);
    }
    let i = p.index_of_first(x)->Some_0;
    if i < k {
        assert(p[i] != x);
        assert(false);
    }
    if k < i {
        assert(p[k] != x);
        assert(false);
    }
}

/// A listing of well-formed entries decodes from its own payload: parsing
/// the concatenated records yields exactly the entries again, in order.
///
/// Beside the name invariant this needs each entry id's wire bytes to differ
/// from the record separator: an id byte equal to the separator cannot be
/// told apart from a delimiter once on the wire.
pub proof fn lemma_parse_entries_of_encode(es: Seq<(u16, Seq<char>)>)
    requires
        entries_wf(es),
        entries_id_sep_free(es),
    ensures
        spec_parse_entries(spec_entries_bytes(es)) == Some(es),
    decreases es.len(),
{
    if es.len() == 0 {
        assert(spec_entries_bytes(es) == Seq::<u8>::empty());
        assert(Seq::<(u16, Seq<char>)>::empty() =~~= es);
    } else {
        let e = es[0];
        let rest = es.drop_first();
        let nb = encode_utf8(e.1);
        let eb = spec_entry_bytes(e);
        let tail = spec_entries_bytes(rest);
        let pp = spec_entries_bytes(es);
        assert(pp == eb + tail);
        let k = 2 + nb.len() as int;
        assert(eb.len() == k + 1);
        assert(entry_wf(e) && entry_id_sep_free(e));
        assert(pp[k] == RECORD_SEPARATOR) by {
            assert(eb[k] == RECORD_SEPARATOR);
        }
        assert forall|j: int| 0 <= j < k implies pp[j] != RECORD_SEPARATOR by {
            assert(pp[j] == eb[j]);
            if j == 0 {
                assert(eb[0] == u16_hi(e.0));
            } else if j == 1 {
                assert(eb[1] == u16_lo(e.0));
            } else {
                assert(eb[j] == nb[j - 2]);
                if nb[j - 2] == RECORD_SEPARATOR {
                    assert(nb.contains(RECORD_SEPARATOR)) by {
                        assert(0 <= j - 2 < nb.len() && nb[j - 2] == RECORD_SEPARATOR);
                    }
                    assert(false);
                }
            }
        }
        lemma_index_of_first_at(pp, RECORD_SEPARATOR, k);
        assert(pp.subrange(2, k) =~= nb);
        encode_utf8_valid_utf8(e.1);
        encode_utf8_decode_utf8(e.1);
        lemma_u16_to_bytes_to_u16(e.0);
        assert(pp[0] == u16_hi(e.0) && pp[1] == u16_lo(e.0));
        assert(pp.subrange(k + 1, pp.len() as int) =~= tail);
        assert forall|i: int| 0 <= i < rest.len() implies entry_wf(#[trigger] rest[i])
            && entry_id_sep_free(rest[i]) by {
            assert(rest[i] == es[i + 1]);
        }
        lemma_parse_entries_of_encode(rest);
        assert(2 <= k < pp.len());
        assert(spec_parse_entries(pp) == Some(seq![(e.0, e.1)] + rest));
        assert(seq![(e.0, e.1)] + rest =~~= es);
    }
}

/// While decoding, the payload bytes before `rel` have been consumed into
/// `done`: the whole payload parses exactly when the rest still does, and
/// then to `done` followed by whatever the rest yields.
spec fn parse_continues(p: Seq<u8>, rel: int, done: Seq<(u16, Seq<char>)>) -> bool
    recommends
        0 <= rel <= p.len(),
{
    match spec_parse_entries(p.subrange(rel, p.len() as int)) {
        Some(rest) => spec_parse_entries(p) == Some(done + rest),
        None => spec_parse_entries(p) is None,
    }
}

/// An ordered listing of sub-resources, sent back for a request.
pub struct DirectoryResponsePacket {
    /// A list of directory entries
    pub entries: Vec<DirectoryEntry>,
    /// Connection ID
    pub connection_id: u16,
}

impl DirectoryResponsePacket {
    /// Constructs a new DirectoryResponsePacket.
    ///
    /// `connection_id` is typically the ID sent by the RequestPacket.
    pub fn new(entries: Vec<DirectoryEntry>, connection_id: u16) -> (r: Result<Self, PacketError>)
        ensures
            r matches Ok(p) && p.entries == entries && p.connection_id == connection_id,
    {
        Ok(Self { entries: entries, connection_id: connection_id })
    }

    /// Convert the vector of bytes into a packet object.
    ///
    /// The payload is split at every record separator; each record must hold
    /// at least the two entry id bytes, the rest is the name and must be
    /// valid UTF-8, and the last record must be closed by a separator.
    pub fn from_vec(vec_packet: Vec<u8>) -> (r: Result<Self, PacketError>)
        ensures
            ({
                let b = vec_packet@;
                if b.len() >= HEADER_LEN {
                    match spec_parse_entries(spec_payload(b)) {
                        Some(es) => r matches Ok(p) && p.entries.deep_view() == es
                            && p.connection_id == spec_connection_id(b),
                        None => r matches Err(e) && e is MalformedPacket,
                    }
                } else {
                    r matches Err(e) && e is MalformedPacket
                }
            }),
    {
        let n = vec_packet.len();
        if n < HEADER_LEN {
            return Err(PacketError::MalformedPacket("Packet too short".to_owned()));
        }

        let ghost b = vec_packet@;
        let ghost p = spec_payload(b);

        let connection_id: u16 = ((vec_packet[5] as u16) << 8) | (vec_packet[6] as u16);

        let mut entries: Vec<DirectoryEntry> = Vec::new();
        let mut pos: usize = HEADER_LEN;

        proof {
            assert(p.subrange(0, p.len() as int) =~= p);
            assert(entries.deep_view() =~= Seq::<(u16, Seq<char>)>::empty());
            if spec_parse_entries(p) is Some {
                let rest = spec_parse_entries(p)->Some_0;
                assert(entries.deep_view() + rest =~~= rest);
            }
        }

        while pos < n
            invariant
                HEADER_LEN <= pos <= n,
                n == b.len(),
                b == vec_packet@,
                p == spec_payload(b),
                p.len() == n - HEADER_LEN,
                parse_continues(p, pos - HEADER_LEN, entries.deep_view()),
            decreases n - pos,
        {
            let ghost rel = pos - HEADER_LEN;
            let ghost s = p.subrange(rel, p.len() as int);
            let ghost done = entries.deep_view();
            proof {
                assert(s =~= b.subrange(pos as int, n as int));
            }

            // scan for the separator that closes the record at `pos`
            let mut k: usize = pos;
            while k < n && vec_packet[k] != RECORD_SEPARATOR
                invariant
                    pos <= k <= n,
                    n == b.len(),
                    b == vec_packet@,
                    forall|j: int| pos <= j < k ==> b[j] != RECORD_SEPARATOR,
                decreases n - k,
            {
                k += 1;
            }

            if k == n {
                proof {
                    s.index_of_first_ensures(RECORD_SEPARATOR);
                    if s.index_of_first(RECORD_SEPARATOR) is Some {
                        let i = s.index_of_first(RECORD_SEPARATOR)->Some_0;
                        assert(s[i] == b[pos + i]);
                        assert(false);
                    }
                    assert(spec_parse_entries(s) is None);
                }
                return Err(PacketError::MalformedPacket("Record not terminated".to_owned()));
            }

            proof {
                assert(s[k - pos] == b[k as int]);
                assert forall|j: int| 0 <= j < k - pos implies s[j] != RECORD_SEPARATOR by {
                    assert(b[pos + j] != RECORD_SEPARATOR);
                }
                lemma_index_of_first_at(s, RECORD_SEPARATOR, k - pos);
            }

            if k - pos < 2 {
                proof {
                    assert(spec_parse_entries(s) is None);
                }
                return Err(PacketError::MalformedPacket("Record too short".to_owned()));
            }

            let entry_id: u16 = ((vec_packet[pos] as u16) << 8) | (vec_packet[pos + 1] as u16);
            let name_bytes = copy_range(&vec_packet, pos + 2, k);
            proof {
                assert(name_bytes@ =~= s.subrange(2, k - pos));
            }
            match bytes_to_string(name_bytes) {
                Some(name) => {
                    proof {
                        encode_utf8_decode_utf8(name@);
                        assert(decode_utf8(s.subrange(2, k - pos)) == name@);
                    }
                    entries.push(DirectoryEntry { entry_id: entry_id, name: name });
                    let ghost old_pos = pos as int;
                    pos = k + 1;
                    proof {
                        let done2 = entries.deep_view();
                        assert(done2 =~~= done.push((entry_id, name@)));
                        let rk = k - old_pos;
                        let s2 = p.subrange(rel + rk + 1, p.len() as int);
                        assert(s.subrange(rk + 1, s.len() as int) =~= s2);
                        if spec_parse_entries(s2) is Some {
                            let rest2 = spec_parse_entries(s2)->Some_0;
                            assert(spec_parse_entries(s) == Some(
                                seq![(entry_id, name@)] + rest2,
                            ));
                            assert(done + (seq![(entry_id, name@)] + rest2) =~~= done.push(
                                (entry_id, name@),
                            ) + rest2);
                        } else {
                            assert(spec_parse_entries(s) is None);
                        }
                    }
                },
                None => {
                    proof {
                        assert(spec_parse_entries(s) is None);
                    }
                    return Err(
                        PacketError::MalformedPacket("Name is not valid text".to_owned()),
                    );
                },
            }
        }

        proof {
            let s_end = p.subrange(p.len() as int, p.len() as int);
            assert(s_end =~= Seq::<u8>::empty());
            assert(spec_parse_entries(s_end) == Some(Seq::<(u16, Seq<char>)>::empty()));
            let dv = entries.deep_view();
            assert(dv + Seq::<(u16, Seq<char>)>::empty() =~~= dv);
        }
        Ok(Self { entries: entries, connection_id: connection_id })
    }

    /// Convert the packet into a vector of bytes that can be sent over the
    /// wire.
    pub fn to_vec(&self) -> (r: Vec<u8>)
        requires
            spec_entries_bytes(self.entries.deep_view()).len() <= MAX_PAYLOAD_LEN,
        ensures
            r@ == spec_frame(
                PACKET_TYPE_DIRECTORY_RESPONSE,
                self.connection_id,
                spec_entries_bytes(self.entries.deep_view()),
            ),
    {
        let ghost dv = self.entries.deep_view();
        let mut entry_payload: Vec<u8> = Vec::new();
        let mut i: usize = 0;
        assert(dv.take(0) =~= Seq::<(u16, Seq<char>)>::empty());
        while i < self.entries.len()
            invariant
                i <= self.entries@.len(),
                dv == self.entries.deep_view(),
                dv.len() == self.entries@.len(),
                entry_payload@ == spec_entries_bytes(dv.take(i as int)),
            decreases self.entries@.len() - i,
        {
            let e = &self.entries[i];
            let ghost snap = entry_payload@;
            let id = e.entry_id;
            assert((id >> 8) & 0xFF <= 0xFF && id & 0xFF <= 0xFF) by (bit_vector);
            assert(((id >> 8) & 0xFF) as u8 == u16_hi(id) && (id & 0xFF) as u8 == u16_lo(id))
                by (bit_vector);
            entry_payload.push(((id >> 8) & 0xFF) as u8);
            entry_payload.push((id & 0xFF) as u8);
            let name_bytes = e.name.as_str().as_bytes_vec();
            crate::packet::push_bytes(&mut entry_payload, &name_bytes);
            entry_payload.push(RECORD_SEPARATOR);
            proof {
                assert(dv[i as int] == self.entries@[i as int].deep_view());
                assert(entry_payload@ =~= snap + spec_entry_bytes(dv[i as int]));
                lemma_entries_bytes_push(dv.take(i as int), dv[i as int]);
                assert(dv.take(i + 1) =~= dv.take(i as int).push(dv[i as int]));
            }
            i += 1;
        }
        assert(dv.take(dv.len() as int) =~= dv);

        packet_to_vec(
            PacketType::DirectoryResponse,
            entry_payload,
            self.connection_id,
        ).unwrap()
    }
}

} // verus!
