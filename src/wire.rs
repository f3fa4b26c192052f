//! Reading the wire format back: one packet at a time from a byte buffer.
use vstd::prelude::*;
use crate::bytes::{le_to_u64, le_value, le_value_u64, lemma_le_bytes_len, lemma_le_round_trip, lemma_pow256_8, u64_le};
use crate::encoder::{length_prefixed, PACKET_DATA, PACKET_ENCODER_INFO, PACKET_FREQUENCY, PACKET_GOODBYE, PACKET_MISSED_PAGE};
use crate::global_storage::{entries_bytes, entry_bytes, Entry};

verus! {

/// A packet read from the wire.
pub enum WirePacket {
    /// Serialized encoder information.
    EncoderInfo(Vec<u8>),
    /// Store entries: serialized header and payload of each packet.
    Data(Vec<(Vec<u8>, Vec<u8>)>),
    /// Serialized header of a packet whose payload was evicted.
    MissedPage(Vec<u8>),
    /// Ticks per second.
    Frequency(u64),
    Goodbye,
}

/// Why no packet could be read.
#[derive(Clone, Copy, Debug, PartialEq, Eq, Structural)]
pub enum DecodeError {
    /// The buffer ends inside the packet.
    Incomplete,
    /// The lengths inside a data packet do not add up to its total length.
    Malformed,
    /// The type byte is none of the known ones.
    UnknownPacketType(u8),
}

/// A packet as values: its type byte, its body (for encoder info and missed
/// page), its entries (for data) and its rate (for frequency).
pub open spec fn wire_view(p: WirePacket) -> (u8, Seq<u8>, Seq<Entry>, u64) {
    match p {
        WirePacket::EncoderInfo(b) => (PACKET_ENCODER_INFO, b@, Seq::empty(), 0),
        WirePacket::Data(es) => (PACKET_DATA, Seq::empty(), es@.map_values(|e: (Vec<u8>, Vec<u8>)| (e.0@, e.1@)), 0),
        WirePacket::MissedPage(b) => (PACKET_MISSED_PAGE, b@, Seq::empty(), 0),
        WirePacket::Frequency(f) => (PACKET_FREQUENCY, Seq::empty(), Seq::empty(), f),
        WirePacket::Goodbye => (PACKET_GOODBYE, Seq::empty(), Seq::empty(), 0),
    }
}

/// The `u64` written little-endian at the head of `s` (8 bytes must be there).
pub open spec fn head_u64(s: Seq<u8>) -> int {
    le_value(s.take(8)) as int
}

/// The entries whose framed bytes are exactly `s`, if `s` is such a concatenation.
pub open spec fn parse_entries(s: Seq<u8>) -> Option<Seq<Entry>>
    decreases s.len(),
{
    if s.len() == 0 {
        Some(Seq::empty())
    } else if s.len() < 8 {
        None
    } else {
        let hl = head_u64(s);
        if 8 + hl + 8 > s.len() {
            None
        } else {
            let pl = head_u64(s.skip(8 + hl));
            if 16 + hl + pl > s.len() {
                None
            } else {
                match parse_entries(s.skip(16 + hl + pl)) {
                    Some(rest) => Some(seq![(s.subrange(8, 8 + hl), s.subrange(16 + hl, 16 + hl + pl))].add(rest)),
                    None => None,
                }
            }
        }
    }
}

/// What reading a packet at the head of `s` gives: the packet's view and its
/// length, or the error.
pub open spec fn packet_at(s: Seq<u8>) -> Result<((u8, Seq<u8>, Seq<Entry>, u64), int), DecodeError> {
    if s.len() == 0 {
        Err(DecodeError::Incomplete)
    } else {
        let t = s[0];
        let b = s.skip(1);
        if t == PACKET_GOODBYE {
            Ok(((t, Seq::empty(), Seq::empty(), 0), 1))
        } else if t == PACKET_FREQUENCY {
            if b.len() < 8 {
                Err(DecodeError::Incomplete)
            } else {
                Ok(((t, Seq::empty(), Seq::empty(), le_value_u64(b.take(8))), 9))
            }
        } else if t == PACKET_ENCODER_INFO || t == PACKET_MISSED_PAGE || t == PACKET_DATA {
            if b.len() < 8 || 8 + head_u64(b) > b.len() {
                Err(DecodeError::Incomplete)
            } else {
                let body = b.subrange(8, 8 + head_u64(b));
                if t == PACKET_DATA {
                    match parse_entries(body) {
                        Some(es) => Ok(((t, Seq::empty(), es, 0), 9 + head_u64(b))),
                        None => Err(DecodeError::Malformed),
                    }
                } else {
                    Ok(((t, body, Seq::empty(), 0), 9 + head_u64(b)))
                }
            }
        } else {
            Err(DecodeError::UnknownPacketType(t))
        }
    }
}

/// Reads the `u64` at `pos`, if eight bytes are there.
fn read_u64(bytes: &[u8], pos: usize) -> (r: Option<u64>)
    ensures
        r is Some <==> pos + 8 <= bytes@.len(),
        r is Some ==> r->0 as int == head_u64(bytes@.skip(pos as int)),
{
    if pos > bytes.len() || bytes.len() - pos < 8 {
        return None;
    }
    let s = vstd::slice::slice_subrange(bytes, pos, pos + 8);
    let v = le_to_u64(s);
    assert(s@ =~= bytes@.skip(pos as int).take(8));
    Some(v)
}

fn copy_range(bytes: &[u8], from: usize, to: usize) -> (r: Vec<u8>)
    requires
        from <= to <= bytes@.len(),
    ensures
        r@ == bytes@.subrange(from as int, to as int),
{
    let mut out: Vec<u8> = Vec::new();
    let mut i: usize = from;
    while i < to
        invariant
            from <= i <= to,
            to <= bytes@.len(),
            out@ == bytes@.subrange(from as int, i as int),
        decreases to - i,
    {
        out.push(bytes[i]);
        i = i + 1;
        assert(out@ =~= bytes@.subrange(from as int, i as int));
    }
    out
}

/// Splits a data packet's body into its entries.
pub fn decode_entries(body: &[u8]) -> (r: Option<Vec<(Vec<u8>, Vec<u8>)>>)
    ensures
        match r {
            Some(es) => parse_entries(body@) == Some(es@.map_values(|e: (Vec<u8>, Vec<u8>)| (e.0@, e.1@))),
            None => parse_entries(body@) is None,
        },
{
    let mut out: Vec<(Vec<u8>, Vec<u8>)> = Vec::new();
    let mut pos: usize = 0;
    let n = body.len();
    proof {
        assert(body@.skip(0) =~= body@);
        let e0 = out@.map_values(|e: (Vec<u8>, Vec<u8>)| (e.0@, e.1@));
        assert(e0 =~= Seq::<Entry>::empty());
        match parse_entries(body@) {
            Some(rest) => {
                assert(e0.add(rest) =~= rest);
            },
            None => {},
        }
    }
    while pos < n
        invariant
            pos <= n,
            n == body@.len(),
            parse_entries(body@) == match parse_entries(body@.skip(pos as int)) {
                Some(rest) => Some(out@.map_values(|e: (Vec<u8>, Vec<u8>)| (e.0@, e.1@)).add(rest)),
                None => None::<Seq<Entry>>,
            },
        decreases n - pos,
    {
        let ghost s = body@.skip(pos as int);
        let ghost old_out = out@.map_values(|e: (Vec<u8>, Vec<u8>)| (e.0@, e.1@));
        let hl = match read_u64(body, pos) {
            Some(v) => v,
            None => {
                return None;
            },
        };
        if hl as u128 > (n - pos - 8) as u128 {
            return None;
        }
        let h_end = pos + 8 + hl as usize;
        let pl = match read_u64(body, h_end) {
            Some(v) => v,
            None => {
                proof {
                    assert(8 + head_u64(s) + 8 > s.len());
                }
                return None;
            },
        };
        proof {
            assert(body@.skip(h_end as int) =~= s.skip(8 + head_u64(s)));
        }
        if pl as u128 > (n - h_end - 8) as u128 {
            return None;
        }
        let p_end = h_end + 8 + pl as usize;
        let header = copy_range(body, pos + 8, h_end);
        let payload = copy_range(body, h_end + 8, p_end);
        proof {
            assert(header@ =~= s.subrange(8, 8 + head_u64(s)));
            assert(payload@ =~= s.subrange(16 + head_u64(s), 16 + head_u64(s) + pl));
            assert(body@.skip(p_end as int) =~= s.skip(16 + head_u64(s) + pl));
        }
        out.push((header, payload));
        proof {
            let new_out = out@.map_values(|e: (Vec<u8>, Vec<u8>)| (e.0@, e.1@));
            assert(new_out =~= old_out.push((header@, payload@)));
            match parse_entries(body@.skip(p_end as int)) {
                Some(rest) => {
                    assert(old_out.add(seq![(header@, payload@)].add(rest)) =~= new_out.add(rest));
                },
                None => {},
            }
        }
        pos = p_end;
    }
    proof {
        assert(body@.skip(n as int) =~= Seq::<u8>::empty());
        assert(out@.map_values(|e: (Vec<u8>, Vec<u8>)| (e.0@, e.1@)).add(Seq::<Entry>::empty()) =~= out@.map_values(|e: (Vec<u8>, Vec<u8>)| (e.0@, e.1@)));
    }
    Some(out)
}

/// Reads the packet that starts at `pos`; on success returns it with the
/// position just after it.
pub fn decode_packet(bytes: &[u8], pos: usize) -> (r: Result<(WirePacket, usize), DecodeError>)
    requires
        pos <= bytes@.len(),
    ensures
        match (r, packet_at(bytes@.skip(pos as int))) {
            (Ok((p, next)), Ok((v, len))) => wire_view(p) == v && next == pos + len,
            (Err(e), Err(e2)) => e == e2,
            _ => false,
        },
{
    let ghost s = bytes@.skip(pos as int);
    if pos >= bytes.len() {
        return Err(DecodeError::Incomplete);
    }
    let t = bytes[pos];
    let ghost b = s.skip(1);
    proof {
        assert(bytes@.skip(pos + 1) =~= b);
    }
    if t == PACKET_GOODBYE {
        return Ok((WirePacket::Goodbye, pos + 1));
    }
    if t == PACKET_FREQUENCY {
        match read_u64(bytes, pos + 1) {
            Some(f) => {
                proof {
                    lemma_pow256_8();
                    crate::bytes::lemma_le_value_bound(b.take(8));
                    vstd::arithmetic::div_mod::lemma_small_mod(le_value(b.take(8)), 0x1_0000_0000_0000_0000);
                }
                return Ok((WirePacket::Frequency(f), pos + 9));
            },
            None => {
                return Err(DecodeError::Incomplete);
            },
        }
    }
    if t == PACKET_ENCODER_INFO || t == PACKET_MISSED_PAGE || t == PACKET_DATA {
        let len = match read_u64(bytes, pos + 1) {
            Some(v) => v,
            None => {
                return Err(DecodeError::Incomplete);
            },
        };
        if len as u128 > (bytes.len() - pos - 9) as u128 {
            return Err(DecodeError::Incomplete);
        }
        let start = pos + 9;
        let end = start + len as usize;
        proof {
            assert(bytes@.subrange(start as int, end as int) =~= b.subrange(8, 8 + head_u64(b)));
        }
        if t == PACKET_DATA {
            let body = vstd::slice::slice_subrange(bytes, start, end);
            return match decode_entries(body) {
                Some(es) => Ok((WirePacket::Data(es), end)),
                None => Err(DecodeError::Malformed),
            };
        }
        let body = copy_range(bytes, start, end);
        if t == PACKET_ENCODER_INFO {
            return Ok((WirePacket::EncoderInfo(body), end));
        } else {
            return Ok((WirePacket::MissedPage(body), end));
        }
    }
    Err(DecodeError::UnknownPacketType(t))
}

/// Entries framed by the store are read back as the same entries.
pub proof fn lemma_entries_round_trip(es: Seq<Entry>)
    requires
        forall|i: int| 0 <= i < es.len() ==> (#[trigger] es[i]).0.len() <= u64::MAX && es[i].1.len() <= u64::MAX,
    ensures
        parse_entries(entries_bytes(es)) == Some(es),
    decreases es.len(),
{
    lemma_pow256_8();
    if es.len() == 0 {
        assert(entries_bytes(es) =~= Seq::<u8>::empty());
    } else {
        let e = es[0];
        let rest = entries_bytes(es.drop_first());
        let s = entries_bytes(es);
        let hl = e.0.len() as int;
        let pl = e.1.len() as int;
        lemma_le_bytes_len(hl as nat, 8);
        lemma_le_bytes_len(pl as nat, 8);
        lemma_le_round_trip(hl as nat, 8);
        lemma_le_round_trip(pl as nat, 8);
        assert(s =~= u64_le(hl as u64).add(e.0).add(u64_le(pl as u64)).add(e.1).add(rest));
        assert(s.take(8) =~= u64_le(hl as u64));
        assert(s.skip(8 + hl).take(8) =~= u64_le(pl as u64));
        assert(s.subrange(8, 8 + hl) =~= e.0);
        assert(s.subrange(16 + hl, 16 + hl + pl) =~= e.1);
        assert(s.skip(16 + hl + pl) =~= rest);
        assert forall|i: int| 0 <= i < es.drop_first().len() implies (#[trigger] es.drop_first()[i]).0.len() <= u64::MAX && es.drop_first()[i].1.len() <= u64::MAX by {
            assert(es.drop_first()[i] == es[i + 1]);
        }
        lemma_entries_round_trip(es.drop_first());
        assert(seq![(e.0, e.1)].add(es.drop_first()) =~= es);
    }
}

/// A data packet built from store entries is read back as those entries, and
/// the other packets as what they were built from.
pub proof fn lemma_packet_round_trip(t: u8, body: Seq<u8>, es: Seq<Entry>, rest: Seq<u8>)
    requires
        t == PACKET_ENCODER_INFO || t == PACKET_MISSED_PAGE || t == PACKET_DATA,
        body.len() <= u64::MAX,
        t == PACKET_DATA ==> body == entries_bytes(es),
        t == PACKET_DATA ==> forall|i: int| 0 <= i < es.len() ==> (#[trigger] es[i]).0.len() <= u64::MAX && es[i].1.len() <= u64::MAX,
    ensures
        packet_at(length_prefixed(t, body).add(rest)) == Ok::<((u8, Seq<u8>, Seq<Entry>, u64), int), DecodeError>((
            (t, if t == PACKET_DATA { Seq::<u8>::empty() } else { body }, if t == PACKET_DATA { es } else { Seq::<Entry>::empty() }, 0u64),
            9 + body.len() as int,
        )),
{
    lemma_pow256_8();
    let s = length_prefixed(t, body).add(rest);
    let b = s.skip(1);
    lemma_le_bytes_len(body.len() as nat, 8);
    lemma_le_round_trip(body.len() as nat, 8);
    assert(b.take(8) =~= u64_le(body.len() as u64));
    assert(b.subrange(8, 8 + body.len() as int) =~= body);
    if t == PACKET_DATA {
        lemma_entries_round_trip(es);
    }
}

} // verus!
