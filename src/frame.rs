//! The payload format of a packet: one frame per event.
//!
//! An instant is `[id, len, dif...]`; a range start or named range end is
//! `[id, 0x80 | len, ord, dif...]`; an unnamed range end is
//! `[0, 0xC0 | len, ord, dif...]`, where `dif` is the timestamp delta in its
//! shortest little-endian form and `len` its number of bytes.
use vstd::prelude::*;
use crate::bytes::{
    byte_len, le_value_u64, lemma_byte_len_bound, lemma_min_le_round_trip, lemma_pow256_8,
    min_le_bytes, min_le_encode,
};

verus! {

/// A decoded event: local id, timestamp delta and, for range parts, the range ordinal.
#[derive(Clone, Copy, Debug, PartialEq, Eq, Structural)]
pub enum TracingEvent {
    Instant(u8, u64),
    RangePart(u8, u64, u8),
    UnnamedRangeEnd(u64, u8),
}

impl TracingEvent {
    pub open spec fn dif(self) -> u64 {
        match self {
            TracingEvent::Instant(_, d) => d,
            TracingEvent::RangePart(_, d, _) => d,
            TracingEvent::UnnamedRangeEnd(d, _) => d,
        }
    }

    /// The timestamp delta of the event.
    pub fn dif_tm(&self) -> (r: u64)
        ensures
            r == self.dif(),
    {
        match self {
            TracingEvent::Instant(_, d) => *d,
            TracingEvent::RangePart(_, d, _) => *d,
            TracingEvent::UnnamedRangeEnd(d, _) => *d,
        }
    }
}

/// The bytes of one event's frame.
pub open spec fn frame_of(e: TracingEvent) -> Seq<u8> {
    match e {
        TracingEvent::Instant(id, dif) => seq![id, byte_len(dif as nat) as u8].add(
            min_le_bytes(dif as nat),
        ),
        TracingEvent::RangePart(id, dif, ord) => seq![id, (128 + byte_len(dif as nat)) as u8, ord].add(
            min_le_bytes(dif as nat),
        ),
        TracingEvent::UnnamedRangeEnd(dif, ord) => seq![
            0u8,
            (192 + byte_len(dif as nat)) as u8,
            ord,
        ].add(min_le_bytes(dif as nat)),
    }
}

/// The frames of a sequence of events, in order.
pub open spec fn frames_of(es: Seq<TracingEvent>) -> Seq<u8>
    decreases es.len(),
{
    if es.len() == 0 {
        Seq::empty()
    } else {
        frames_of(es.drop_last()).add(frame_of(es.last()))
    }
}

/// Length of the frame at the head of `s` (its first two bytes must be there).
pub open spec fn frame_len(s: Seq<u8>) -> int {
    if s[1] >= 128 {
        3 + s[1] % 16
    } else {
        2 + s[1] % 16
    }
}

/// `s` starts with a whole frame (whose delta is at most eight bytes long).
pub open spec fn has_frame(s: Seq<u8>) -> bool {
    s.len() >= 2 && s[1] % 16 <= 8 && s.len() >= frame_len(s)
}

/// `s` starts with a frame head whose delta length is above eight bytes.
pub open spec fn malformed_head(s: Seq<u8>) -> bool {
    s.len() >= 2 && s[1] % 16 > 8
}

/// Going frame by frame through `s`, a malformed frame head comes before the
/// whole frames run out.
pub open spec fn stream_malformed(s: Seq<u8>) -> bool
    decreases s.len(),
{
    if has_frame(s) {
        stream_malformed(s.skip(frame_len(s)))
    } else {
        malformed_head(s)
    }
}

/// The event of the whole frame at the head of `s`.
pub open spec fn head_event(s: Seq<u8>) -> TracingEvent {
    let f = s[1];
    let n = f % 16;
    if f >= 128 {
        let dif = le_value_u64(s.subrange(3, 3 + n));
        if (f / 64) % 2 == 1 {
            TracingEvent::UnnamedRangeEnd(dif, s[2])
        } else {
            TracingEvent::RangePart(s[0], dif, s[2])
        }
    } else {
        TracingEvent::Instant(s[0], le_value_u64(s.subrange(2, 2 + n)))
    }
}

/// The events of the whole frames at the start of `s`; a trailing partial or
/// malformed frame gives none.
pub open spec fn parse_frames(s: Seq<u8>) -> Seq<TracingEvent>
    decreases s.len(),
{
    if has_frame(s) {
        seq![head_event(s)].add(parse_frames(s.skip(frame_len(s))))
    } else {
        Seq::empty()
    }
}

/// Number of bytes taken by the whole frames at the start of `s`.
pub open spec fn complete_len(s: Seq<u8>) -> int
    decreases s.len(),
{
    if has_frame(s) {
        frame_len(s) + complete_len(s.skip(frame_len(s)))
    } else {
        0
    }
}

pub proof fn lemma_byte_len_le_8(v: u64)
    ensures
        byte_len(v as nat) <= 8,
{
    lemma_pow256_8();
    lemma_byte_len_bound(v as nat, 8);
}

/// A frame followed by anything parses back to its event, and takes exactly its own bytes.
pub proof fn lemma_frame_head(e: TracingEvent, rest: Seq<u8>)
    ensures
        has_frame(frame_of(e).add(rest)),
        frame_len(frame_of(e).add(rest)) == frame_of(e).len(),
        head_event(frame_of(e).add(rest)) == e,
        frame_of(e).add(rest).skip(frame_of(e).len() as int) == rest,
{
    let d = e.dif();
    lemma_byte_len_le_8(d);
    lemma_min_le_round_trip(d as nat);
    lemma_pow256_8();
    let s = frame_of(e).add(rest);
    let n = byte_len(d as nat) as int;
    match e {
        TracingEvent::Instant(id, dif) => {
            assert(s.subrange(2, 2 + n) =~= min_le_bytes(dif as nat));
        },
        TracingEvent::RangePart(id, dif, ord) => {
            assert(s.subrange(3, 3 + n) =~= min_le_bytes(dif as nat));
        },
        TracingEvent::UnnamedRangeEnd(dif, ord) => {
            assert(s.subrange(3, 3 + n) =~= min_le_bytes(dif as nat));
        },
    }
    assert(s.skip(frame_of(e).len() as int) =~= rest);
}

pub proof fn lemma_frames_of_head(es: Seq<TracingEvent>)
    requires
        es.len() > 0,
    ensures
        frames_of(es) == frame_of(es[0]).add(frames_of(es.drop_first())),
    decreases es.len(),
{
    if es.len() == 1 {
        assert(es.drop_last() =~= Seq::<TracingEvent>::empty());
        assert(es.drop_first() =~= Seq::<TracingEvent>::empty());
        assert(frames_of(es.drop_first()) =~= Seq::<u8>::empty());
        assert(frames_of(es) =~= frame_of(es[0]).add(frames_of(es.drop_first())));
    } else {
        lemma_frames_of_head(es.drop_last());
        assert(es.drop_last().drop_first() =~= es.drop_first().drop_last());
        assert(es.drop_first().last() == es.last());
        assert(frames_of(es) =~= frame_of(es[0]).add(frames_of(es.drop_first())));
    }
}

/// Decoding the frames of any event sequence gives the same sequence back, and
/// leaves no partial frame.
pub proof fn lemma_round_trip(es: Seq<TracingEvent>)
    ensures
        parse_frames(frames_of(es)) == es,
        complete_len(frames_of(es)) == frames_of(es).len(),
    decreases es.len(),
{
    if es.len() == 0 {
        assert(!has_frame(frames_of(es)));
    } else {
        lemma_frames_of_head(es);
        let rest = frames_of(es.drop_first());
        lemma_frame_head(es[0], rest);
        lemma_round_trip(es.drop_first());
        assert(parse_frames(frames_of(es)) =~= es);
    }
}

/// The flag byte of a frame: bit 0x80 marks a range frame, bit 0x40 an unnamed
/// range end, the low four bits hold the delta's length.
pub proof fn lemma_flag_bits(b: u8)
    ensures
        (b & 0x80 != 0) == (b >= 128),
        (b & 0x40 != 0) == ((b / 64) % 2 == 1),
        b & 0x0F == b % 16,
{
    assert((b & 0x80 != 0) == (b >= 128)) by (bit_vector);
    assert((b & 0x40 != 0) == ((b / 64) % 2 == 1)) by (bit_vector);
    assert(b & 0x0F == b % 16) by (bit_vector);
}

proof fn lemma_or_flag(n: u8)
    requires
        n < 16,
    ensures
        n | 0x80 == 128 + n,
        n | 0xC0 == 192 + n,
{
    assert(n | 0x80 == 128 + n) by (bit_vector)
        requires
            n < 16,
    ;
    assert(n | 0xC0 == 192 + n) by (bit_vector)
        requires
            n < 16,
    ;
}

/// Appends the frame of `e` to `buf`.
pub fn append_frame(buf: &mut Vec<u8>, e: TracingEvent)
    ensures
        final(buf)@ == old(buf)@.add(frame_of(e)),
{
    let dif = e.dif_tm();
    let dif_bytes = min_le_encode(dif);
    let len = dif_bytes.len() as u8;
    proof {
        lemma_or_flag(len);
    }
    match e {
        TracingEvent::Instant(id, _) => {
            buf.push(id);
            buf.push(len);
        },
        TracingEvent::RangePart(id, _, ord) => {
            buf.push(id);
            buf.push(len | 0x80);
            buf.push(ord);
        },
        TracingEvent::UnnamedRangeEnd(_, ord) => {
            buf.push(0);
            buf.push(len | 0xC0);
            buf.push(ord);
        },
    }
    let ghost mid = buf@;
    let mut i: usize = 0;
    while i < dif_bytes.len()
        invariant
            i <= dif_bytes@.len(),
            buf@ == mid.add(dif_bytes@.take(i as int)),
        decreases dif_bytes@.len() - i,
    {
        assert(dif_bytes@.take(i + 1) =~= dif_bytes@.take(i as int).push(dif_bytes@[i as int]));
        buf.push(dif_bytes[i]);
        i = i + 1;
    }
    assert(dif_bytes@.take(dif_bytes@.len() as int) =~= dif_bytes@);
    assert(buf@ =~= old(buf)@.add(frame_of(e)));
}

} // verus!
