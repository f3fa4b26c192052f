//! Streaming decoder of a packet's payload: bytes may arrive in chunks of any
//! size; events come out as soon as their frame is whole.
use vstd::prelude::*;
use crate::bytes::le_to_u64;
use crate::frame::{
    complete_len, frame_len, has_frame, head_event, lemma_flag_bits, malformed_head, parse_frames,
    stream_malformed, TracingEvent,
};
use crate::ring::{
    ring_bytes, ring_capacity, ring_clear, ring_len, ring_new, ring_pop, ring_pop_n, ring_push, ByteRing,
};

verus! {

/// Capacity of the decoder's byte ring.
pub const PARSER_BUF_SIZE: usize = 1_000_000;

/// Where the decoder stands inside the current frame.
#[derive(Clone, Copy, Debug, PartialEq, Eq, Structural)]
pub enum ParsingState {
    NewFrame,
    /// The id byte was read.
    DifTmLen(u8),
    /// An instant: id and delta length.
    DifTm(u8, usize),
    /// A range frame: id (none for an unnamed end) and delta length.
    RangeOrdId(Option<u8>, usize),
    /// A range frame after its ordinal.
    RangeTm(Option<u8>, usize, u8),
    /// A frame head announced a delta longer than eight bytes; the stream is
    /// not read any further.
    Malformed,
}

/// Outcome of a decoding step that completes no frame.
#[derive(Clone, Copy, Debug, PartialEq, Eq, Structural)]
pub enum DecodeStep {
    /// A byte was taken.
    Progress,
    /// Fewer bytes are buffered than the current state needs; nothing changed.
    NeedMore,
    /// The stream holds a malformed frame head.
    Malformed,
}

/// A payload held a frame head announcing a delta longer than eight bytes.
#[derive(Clone, Copy, Debug, PartialEq, Eq, Structural)]
pub struct MalformedFrame;

/// Bytes the state needs buffered to take its next step.
pub open spec fn needs(st: ParsingState) -> int {
    match st {
        ParsingState::NewFrame => 1,
        ParsingState::DifTmLen(_) => 1,
        ParsingState::DifTm(_, n) => n as int,
        ParsingState::RangeOrdId(_, _) => 1,
        ParsingState::RangeTm(_, n, _) => n as int,
        ParsingState::Malformed => 0,
    }
}

/// The id of a range frame given its id and flag bytes: none for an unnamed end.
pub open spec fn range_id(id: u8, flags: u8) -> Option<u8> {
    if (flags / 64) % 2 == 1 {
        None
    } else {
        Some(id)
    }
}

/// The state is the one reached after reading the bytes `p` of a frame.
pub open spec fn state_matches(st: ParsingState, p: Seq<u8>) -> bool {
    match st {
        ParsingState::NewFrame => p.len() == 0,
        ParsingState::DifTmLen(id) => p.len() == 1 && p[0] == id,
        ParsingState::DifTm(id, n) => p.len() == 2 && p[0] == id && p[1] < 128 && n == p[1] % 16
            && n <= 8,
        ParsingState::RangeOrdId(mid, n) => p.len() == 2 && p[1] >= 128 && n == p[1] % 16 && n <= 8
            && mid == range_id(p[0], p[1]),
        ParsingState::RangeTm(mid, n, ord) => p.len() == 3 && p[1] >= 128 && n == p[1] % 16 && n <= 8
            && mid == range_id(p[0], p[1]) && ord == p[2],
        ParsingState::Malformed => malformed_head(p),
    }
}

/// Parsing `a ++ b`, where `a` is whole frames, parses `a` and then `b`.
pub proof fn lemma_parse_concat(a: Seq<u8>, b: Seq<u8>)
    requires
        complete_len(a) == a.len(),
    ensures
        parse_frames(a.add(b)) == parse_frames(a).add(parse_frames(b)),
        complete_len(a.add(b)) == a.len() + complete_len(b),
        stream_malformed(a.add(b)) == stream_malformed(b),
    decreases a.len(),
{
    if a.len() == 0 {
        assert(a.add(b) =~= b);
        assert(parse_frames(a) =~= Seq::<TracingEvent>::empty());
        assert(parse_frames(a).add(parse_frames(b)) =~= parse_frames(b));
    } else {
        assert(has_frame(a));
        let s = a.add(b);
        let fl = frame_len(a);
        assert(s[1] == a[1]);
        assert(frame_len(s) == fl);
        assert(has_frame(s));
        let n = a[1] % 16;
        assert(s.subrange(2, 2 + n) =~= a.subrange(2, 2 + n));
        if a[1] >= 128 {
            assert(s.subrange(3, 3 + n) =~= a.subrange(3, 3 + n));
        }
        assert(head_event(s) == head_event(a));
        assert(s.skip(fl) =~= a.skip(fl).add(b));
        lemma_parse_concat(a.skip(fl), b);
        assert(parse_frames(a.add(b)) =~= parse_frames(a).add(parse_frames(b)));
    }
}

/// A whole frame parses to its head event alone.
pub proof fn lemma_single_frame(f: Seq<u8>)
    requires
        has_frame(f),
        frame_len(f) == f.len(),
    ensures
        parse_frames(f) == seq![head_event(f)],
        complete_len(f) == f.len(),
{
    let e = f.skip(frame_len(f));
    assert(e =~= Seq::<u8>::empty());
    assert(!has_frame(e));
    assert(parse_frames(e) == Seq::<TracingEvent>::empty());
    assert(complete_len(e) == 0);
    assert(parse_frames(f) =~= seq![head_event(f)]);
}

/// Bytes that do not start with a whole frame parse to nothing.
proof fn lemma_no_frame(f: Seq<u8>)
    requires
        !has_frame(f),
    ensures
        parse_frames(f) == Seq::<TracingEvent>::empty(),
        complete_len(f) == 0,
{
}

/// The events of a prefix of a byte stream come first among those of the whole stream.
pub proof fn lemma_parse_prefix(a: Seq<u8>, b: Seq<u8>)
    ensures
        parse_frames(a.add(b)).take(parse_frames(a).len() as int) == parse_frames(a),
        parse_frames(a).len() <= parse_frames(a.add(b)).len(),
    decreases a.len(),
{
    if has_frame(a) {
        let s = a.add(b);
        let fl = frame_len(a);
        assert(s[1] == a[1]);
        let n = a[1] % 16;
        assert(s.subrange(2, 2 + n) =~= a.subrange(2, 2 + n));
        if a[1] >= 128 {
            assert(s.subrange(3, 3 + n) =~= a.subrange(3, 3 + n));
        }
        assert(head_event(s) == head_event(a));
        assert(s.skip(fl) =~= a.skip(fl).add(b));
        lemma_parse_prefix(a.skip(fl), b);
        assert(parse_frames(a.add(b)).take(parse_frames(a).len() as int) =~= parse_frames(a));
    } else {
        assert(parse_frames(a) =~= Seq::<TracingEvent>::empty());
    }
}

/// Taking a whole frame `f = pp ++ rb[..n]` off the pending bytes appends its
/// event to those of the decoded part.
proof fn lemma_emit(done: Seq<u8>, pp: Seq<u8>, rb: Seq<u8>, n: int, h: Seq<u8>, e: TracingEvent)
    requires
        complete_len(done) == done.len(),
        h == done.add(pp.add(rb)),
        0 <= n <= rb.len(),
        has_frame(pp.add(rb.take(n))),
        frame_len(pp.add(rb.take(n))) == pp.len() + n,
        head_event(pp.add(rb.take(n))) == e,
    ensures
        complete_len(done.add(pp.add(rb.take(n)))) == done.len() + pp.len() + n,
        parse_frames(done.add(pp.add(rb.take(n)))) == parse_frames(done).push(e),
        h == done.add(pp.add(rb.take(n))).add(rb.skip(n)),
{
    let f = pp.add(rb.take(n));
    lemma_single_frame(f);
    lemma_parse_concat(done, f);
    assert(parse_frames(done).add(seq![e]) =~= parse_frames(done).push(e));
    assert(h =~= done.add(f).add(rb.skip(n)));
}

/// The bytes of an instant frame: id, flags, then `n` delta bytes.
proof fn lemma_instant_frame(pp: Seq<u8>, rb: Seq<u8>, id: u8, n: usize, dif: Seq<u8>)
    requires
        state_matches(ParsingState::DifTm(id, n), pp),
        n <= rb.len(),
        dif == rb.take(n as int),
    ensures
        has_frame(pp.add(rb.take(n as int))),
        frame_len(pp.add(rb.take(n as int))) == pp.len() + n as int,
        head_event(pp.add(rb.take(n as int))) == TracingEvent::Instant(id, crate::bytes::le_value_u64(dif)),
{
    let f = pp.add(rb.take(n as int));
    assert(f[1] == pp[1]);
    assert(f.subrange(2, 2 + n as int) =~= dif);
}

/// The bytes of a range frame: id, flags, ordinal, then `n` delta bytes.
proof fn lemma_range_frame(pp: Seq<u8>, rb: Seq<u8>, mid: Option<u8>, n: usize, ord: u8, dif: Seq<u8>)
    requires
        state_matches(ParsingState::RangeTm(mid, n, ord), pp),
        n <= rb.len(),
        dif == rb.take(n as int),
    ensures
        has_frame(pp.add(rb.take(n as int))),
        frame_len(pp.add(rb.take(n as int))) == pp.len() + n as int,
        head_event(pp.add(rb.take(n as int))) == match mid {
            Some(id) => TracingEvent::RangePart(id, crate::bytes::le_value_u64(dif), ord),
            None => TracingEvent::UnnamedRangeEnd(crate::bytes::le_value_u64(dif), ord),
        },
{
    let f = pp.add(rb.take(n as int));
    assert(f[1] == pp[1]);
    assert(f[0] == pp[0]);
    assert(f[2] == pp[2]);
    assert(f.subrange(3, 3 + n as int) =~= dif);
}

/// Concatenation of a sequence of chunks.
pub open spec fn flatten(chunks: Seq<Seq<u8>>) -> Seq<u8>
    decreases chunks.len(),
{
    if chunks.len() == 0 {
        Seq::empty()
    } else {
        flatten(chunks.drop_last()).add(chunks.last())
    }
}

/// What a decoder returns over the calls that feed it `chunks` one by one: the
/// k-th call returns the events that the k-th chunk completed.
pub open spec fn chunked_output(chunks: Seq<Seq<u8>>) -> Seq<TracingEvent>
    decreases chunks.len(),
{
    if chunks.len() == 0 {
        Seq::empty()
    } else {
        let before = parse_frames(flatten(chunks.drop_last()));
        chunked_output(chunks.drop_last()).add(
            parse_frames(flatten(chunks)).skip(before.len() as int),
        )
    }
}

/// Frame atomicity: feeding the payload in any partition into chunks (single
/// bytes included) yields exactly the events of feeding it all at once. A
/// decoder's `decode_many` returns, for each chunk, exactly the piece of
/// `chunked_output` for that chunk (see its contract).
pub proof fn lemma_frame_atomicity(chunks: Seq<Seq<u8>>)
    ensures
        chunked_output(chunks) == parse_frames(flatten(chunks)),
    decreases chunks.len(),
{
    if chunks.len() > 0 {
        lemma_frame_atomicity(chunks.drop_last());
        let a = flatten(chunks.drop_last());
        lemma_parse_prefix(a, chunks.last());
        let whole = parse_frames(flatten(chunks));
        let before = parse_frames(a);
        assert(before.add(whole.skip(before.len() as int)) =~= whole);
    }
}

/// Decoder of one thread's payload stream.
pub struct StreamFrameDecoder {
    state: ParsingState,
    buf: ByteRing,
    /// Every byte fed so far.
    history: Ghost<Seq<u8>>,
    /// Every event handed out so far.
    emitted: Ghost<Seq<TracingEvent>>,
    /// Bytes of the current frame already taken from the ring.
    popped: Ghost<Seq<u8>>,
}

impl StreamFrameDecoder {
    pub closed spec fn history(&self) -> Seq<u8> {
        self.history@
    }

    pub closed spec fn emitted(&self) -> Seq<TracingEvent> {
        self.emitted@
    }

    /// Where the decoder stands inside the current frame.
    pub closed spec fn state(&self) -> ParsingState {
        self.state
    }

    /// Bytes of the current frame already read.
    pub closed spec fn popped(&self) -> Seq<u8> {
        self.popped@
    }

    /// Bytes buffered and not yet read.
    pub closed spec fn ring(&self) -> Seq<u8> {
        ring_bytes(self.buf)
    }

    /// Bytes fed but not yet part of a decoded frame.
    pub open spec fn pending(&self) -> Seq<u8> {
        self.popped().add(self.ring())
    }

    pub closed spec fn wf(&self) -> bool {
        let done = self.history@.take(self.history@.len() - self.pending().len());
        &&& self.pending().len() <= self.history@.len()
        &&& self.history@ == done.add(self.pending())
        &&& complete_len(done) == done.len()
        &&& parse_frames(done) == self.emitted@
        &&& state_matches(self.state, self.popped@)
        &&& self.state is Malformed ==> ring_bytes(self.buf).len() == 0
        &&& ring_capacity(self.buf) == PARSER_BUF_SIZE
    }

    pub fn new() -> (r: Self)
        ensures
            r.wf(),
            r.history() == Seq::<u8>::empty(),
            r.emitted() == Seq::<TracingEvent>::empty(),
            r.state() == ParsingState::NewFrame,
            r.pending() == Seq::<u8>::empty(),
    {
        let r = StreamFrameDecoder {
            state: ParsingState::NewFrame,
            buf: ring_new(PARSER_BUF_SIZE),
            history: Ghost(Seq::empty()),
            emitted: Ghost(Seq::empty()),
            popped: Ghost(Seq::empty()),
        };
        proof {
            assert(r.pending() =~= Seq::<u8>::empty());
            assert(r.history@.take(0) =~= Seq::<u8>::empty());
            assert(parse_frames(Seq::<u8>::empty()) =~= Seq::<TracingEvent>::empty());
        }
        r
    }

    /// Progress measure of the decoding steps.
    pub closed spec fn measure(&self) -> int {
        4 * self.pending().len() + 3 - self.popped@.len()
    }

    /// Takes one step of the frame state machine.
    ///
    /// With fewer bytes buffered than the state needs (see `needs`) it returns
    /// `Err(NeedMore)` and changes nothing. In state `DifTm` or `RangeTm` it
    /// reads the delta bytes and returns the completed frame's event. A flag
    /// byte announcing more than eight delta bytes, or the `Malformed` state,
    /// gives `Err(Malformed)`. Otherwise it reads one byte into the current
    /// frame and returns `Err(Progress)`.
    pub fn try_decode_event(&mut self) -> (r: Result<TracingEvent, DecodeStep>)
        requires
            old(self).wf(),
        ensures
            final(self).wf(),
            final(self).history() == old(self).history(),
            final(self).measure() >= 0,
            r == Err::<TracingEvent, DecodeStep>(DecodeStep::NeedMore) <==> (!(old(self).state() is Malformed)
                && old(self).ring().len() < needs(old(self).state())),
            r == Err::<TracingEvent, DecodeStep>(DecodeStep::NeedMore) ==> *final(self) == *old(self),
            r == Err::<TracingEvent, DecodeStep>(DecodeStep::NeedMore) ==> !has_frame(old(self).pending())
                && !malformed_head(old(self).pending()),
            r == Err::<TracingEvent, DecodeStep>(DecodeStep::Malformed) <==> (old(self).state() is Malformed || (
            old(self).state() is DifTmLen && old(self).ring().len() >= 1 && old(self).ring()[0] % 16 > 8)),
            r == Err::<TracingEvent, DecodeStep>(DecodeStep::Malformed) ==> {
                &&& final(self).state() is Malformed
                &&& final(self).pending() == old(self).pending()
                &&& final(self).emitted() == old(self).emitted()
            },
            r == Err::<TracingEvent, DecodeStep>(DecodeStep::Progress) ==> {
                &&& old(self).ring().len() >= 1
                &&& final(self).popped() == old(self).popped().push(old(self).ring()[0])
                &&& final(self).ring() == old(self).ring().drop_first()
                &&& state_matches(final(self).state(), final(self).popped())
                &&& final(self).emitted() == old(self).emitted()
                &&& final(self).measure() < old(self).measure()
            },
            r is Ok ==> {
                &&& (old(self).state() is DifTm || old(self).state() is RangeTm)
                &&& r->Ok_0 == head_event(old(self).pending())
                &&& final(self).emitted() == old(self).emitted().push(r->Ok_0)
                &&& final(self).state() == ParsingState::NewFrame
                &&& final(self).popped() == Seq::<u8>::empty()
                &&& final(self).ring() == old(self).ring().skip(needs(old(self).state()))
                &&& final(self).measure() < old(self).measure()
            },
    {
        let available_bytes_len = ring_len(&self.buf);
        let ghost h = self.history@;
        let ghost pend = self.pending();
        let ghost done = h.take(h.len() - pend.len());
        let ghost rb = ring_bytes(self.buf);
        let ghost pp = self.popped@;
        match self.state {
            ParsingState::NewFrame => {
                if available_bytes_len >= 1 {
                    let b = ring_pop(&mut self.buf);
                    match b {
                        Some(ev_id) => {
                            self.state = ParsingState::DifTmLen(ev_id);
                            self.popped = Ghost(Seq::empty().push(ev_id));
                            assert(self.pending() =~= pend);
                            assert(self.popped() =~= pp.push(rb[0]));
                            return Err(DecodeStep::Progress);
                        },
                        None => {
                            assert(false);
                            return Err(DecodeStep::NeedMore);
                        },
                    }
                } else {
                    assert(pend =~= Seq::<u8>::empty());
                    return Err(DecodeStep::NeedMore);
                }
            },
            ParsingState::DifTmLen(ev) => {
                if available_bytes_len >= 1 {
                    let b = ring_pop(&mut self.buf);
                    match b {
                        Some(dif_tm_len) => {
                            proof {
                                lemma_flag_bits(dif_tm_len);
                            }
                            let is_range_event = dif_tm_len & 0b1000_0000 != 0;
                            let is_unnamed_range_end = dif_tm_len & 0b0100_0000 != 0;
                            let n = (dif_tm_len & 0b0000_1111) as usize;
                            self.popped = Ghost(pp.push(dif_tm_len));
                            assert(self.pending() =~= pend);
                            if n > 8 {
                                let ghost rest = ring_bytes(self.buf);
                                ring_clear(&mut self.buf);
                                self.popped = Ghost(pp.push(dif_tm_len).add(rest));
                                self.state = ParsingState::Malformed;
                                assert(self.pending() =~= pend);
                                assert(self.popped@[1] == dif_tm_len);
                                return Err(DecodeStep::Malformed);
                            }
                            if is_range_event {
                                if is_unnamed_range_end {
                                    self.state = ParsingState::RangeOrdId(None, n);
                                } else {
                                    self.state = ParsingState::RangeOrdId(Some(ev), n);
                                }
                            } else {
                                self.state = ParsingState::DifTm(ev, n);
                            }
                            return Err(DecodeStep::Progress);
                        },
                        None => {
                            assert(false);
                            return Err(DecodeStep::NeedMore);
                        },
                    }
                } else {
                    assert(pend =~= pp);
                    return Err(DecodeStep::NeedMore);
                }
            },
            ParsingState::DifTm(ev, n) => {
                if available_bytes_len >= n {
                    let bytes = ring_pop_n(&mut self.buf, n);
                    let dif_tm = le_to_u64(bytes.as_slice());
                    let e = TracingEvent::Instant(ev, dif_tm);
                    proof {
                        lemma_instant_frame(pp, rb, ev, n, bytes@);
                        lemma_emit(done, pp, rb, n as int, h, e);
                        assert(head_event(pend) == head_event(pp.add(rb.take(n as int)))) by {
                            assert(pend.subrange(2, 2 + n) =~= pp.add(rb.take(n as int)).subrange(2, 2 + n));
                        }
                    }
                    self.state = ParsingState::NewFrame;
                    self.popped = Ghost(Seq::empty());
                    self.emitted = Ghost(self.emitted@.push(e));
                    proof {
                        assert(self.pending() =~= ring_bytes(self.buf));
                        assert(h.take(h.len() - self.pending().len()) =~= done.add(pp.add(rb.take(n as int))));
                    }
                    return Ok(e);
                } else {
                    proof {
                        if pend.len() >= 2 {
                            assert(pend[1] == pp[1]);
                        }
                    }
                    return Err(DecodeStep::NeedMore);
                }
            },
            ParsingState::RangeOrdId(ev, n) => {
                if available_bytes_len >= 1 {
                    let b = ring_pop(&mut self.buf);
                    match b {
                        Some(ord_id) => {
                            self.state = ParsingState::RangeTm(ev, n, ord_id);
                            self.popped = Ghost(pp.push(ord_id));
                            assert(self.pending() =~= pend);
                            return Err(DecodeStep::Progress);
                        },
                        None => {
                            assert(false);
                            return Err(DecodeStep::NeedMore);
                        },
                    }
                } else {
                    assert(pend =~= pp);
                    return Err(DecodeStep::NeedMore);
                }
            },
            ParsingState::RangeTm(ev_id, n, ord_id) => {
                if available_bytes_len >= n {
                    let bytes = ring_pop_n(&mut self.buf, n);
                    let dif_tm = le_to_u64(bytes.as_slice());
                    let e = match ev_id {
                        Some(id) => TracingEvent::RangePart(id, dif_tm, ord_id),
                        None => TracingEvent::UnnamedRangeEnd(dif_tm, ord_id),
                    };
                    proof {
                        lemma_range_frame(pp, rb, ev_id, n, ord_id, bytes@);
                        lemma_emit(done, pp, rb, n as int, h, e);
                        assert(head_event(pend) == head_event(pp.add(rb.take(n as int)))) by {
                            assert(pend.subrange(3, 3 + n) =~= pp.add(rb.take(n as int)).subrange(3, 3 + n));
                        }
                    }
                    self.state = ParsingState::NewFrame;
                    self.popped = Ghost(Seq::empty());
                    self.emitted = Ghost(self.emitted@.push(e));
                    proof {
                        assert(self.pending() =~= ring_bytes(self.buf));
                        assert(h.take(h.len() - self.pending().len()) =~= done.add(pp.add(rb.take(n as int))));
                    }
                    return Ok(e);
                } else {
                    proof {
                        assert(pend[1] == pp[1]);
                    }
                    return Err(DecodeStep::NeedMore);
                }
            },
            ParsingState::Malformed => {
                return Err(DecodeStep::Malformed);
            },
        }
    }

    /// With no whole frame pending, the stream is malformed exactly when the
    /// pending bytes start with a malformed head.
    proof fn lemma_settled(&self)
        requires
            self.wf(),
            !has_frame(self.pending()),
        ensures
            parse_frames(self.history()) == self.emitted(),
            stream_malformed(self.history()) == malformed_head(self.pending()),
    {
        let h = self.history@;
        let pend = self.pending();
        let done = h.take(h.len() - pend.len());
        lemma_parse_concat(done, pend);
        assert(parse_frames(pend) =~= Seq::<TracingEvent>::empty());
        assert(parse_frames(done).add(parse_frames(pend)) =~= parse_frames(done));
    }

    /// Adds `extra` to what was fed, in the malformed state (nothing more is read).
    proof fn lemma_malformed_feed(&self, extra: Seq<u8>, other: Self)
        requires
            self.wf(),
            self.state is Malformed,
            other.state == self.state,
            other.buf == self.buf,
            other.emitted == self.emitted,
            other.history@ == self.history@.add(extra),
            other.popped@ == self.popped@.add(extra),
        ensures
            other.wf(),
            other.pending() == self.pending().add(extra),
    {
        let h = self.history@;
        let done = h.take(h.len() - self.pending().len());
        assert(other.pending() =~= self.pending().add(extra));
        assert(other.history@.take(other.history@.len() - other.pending().len()) =~= done);
        assert(other.history@ =~= done.add(other.pending()));
        assert(other.popped@[1] == self.popped@[1]);
    }

    /// Feeds `bytes` and returns every event whose frame is now whole, in order.
    /// Afterwards the events handed out are exactly those of the whole frames of
    /// all bytes fed so far, however they were split into calls. If the bytes fed
    /// so far hold a malformed frame head (at a frame boundary), the result is
    /// `Err(MalformedFrame)`, now and on every later call.
    pub fn decode_many(&mut self, bytes: &[u8]) -> (r: Result<Vec<TracingEvent>, MalformedFrame>)
        requires
            old(self).wf(),
        ensures
            final(self).wf(),
            final(self).history() == old(self).history().add(bytes@),
            final(self).emitted() == parse_frames(final(self).history()),
            r is Err <==> stream_malformed(final(self).history()),
            r is Ok ==> final(self).emitted() == old(self).emitted().add(r->Ok_0@),
            r is Ok && old(self).emitted() == parse_frames(old(self).history()) ==> r->Ok_0@
                == parse_frames(final(self).history()).skip(parse_frames(old(self).history()).len() as int),
    {
        let mut events: Vec<TracingEvent> = Vec::new();
        if self.state == ParsingState::Malformed {
            let ghost old_self = *self;
            self.history = Ghost(self.history@.add(bytes@));
            self.popped = Ghost(self.popped@.add(bytes@));
            proof {
                old_self.lemma_malformed_feed(bytes@, *self);
                self.lemma_settled();
            }
            return Err(MalformedFrame);
        }
        let mut offset: usize = 0;
        self.drain(&mut events);
        proof {
            assert(bytes@.take(0) =~= Seq::<u8>::empty());
            assert(self.history() =~= old(self).history().add(bytes@.take(0)));
            assert(events@ =~= events@.skip(0));
        }
        loop
            invariant
                self.wf(),
                offset <= bytes@.len(),
                self.history() == old(self).history().add(bytes@.take(offset as int)),
                self.emitted() == old(self).emitted().add(events@),
                self.emitted() == parse_frames(self.history()),
                !has_frame(self.pending()),
                self.state is Malformed <==> malformed_head(self.pending()),
                !(self.state is Malformed) ==> ring_bytes(self.buf).len() < 18,
            decreases bytes@.len() - offset,
        {
            if self.state == ParsingState::Malformed {
                let ghost old_self = *self;
                let ghost rest = bytes@.skip(offset as int);
                self.history = Ghost(self.history@.add(rest));
                self.popped = Ghost(self.popped@.add(rest));
                proof {
                    old_self.lemma_malformed_feed(rest, *self);
                    assert(bytes@.take(offset as int).add(rest) =~= bytes@);
                    assert(old(self).history().add(bytes@.take(offset as int)).add(rest) =~= old(self).history().add(bytes@));
                    assert(self.popped@[1] == old_self.popped@[1]);
                    assert(!has_frame(self.pending()));
                    self.lemma_settled();
                }
                return Err(MalformedFrame);
            }
            if offset >= bytes.len() {
                proof {
                    assert(bytes@.take(bytes@.len() as int) =~= bytes@);
                    self.lemma_settled();
                    let a = old(self).emitted();
                    assert(a.add(events@).skip(a.len() as int) =~= events@);
                }
                return Ok(events);
            }
            let ghost h0 = self.history@;
            let ghost pend0 = self.pending();
            let pushed = ring_push(&mut self.buf, vstd::slice::slice_subrange(bytes, offset, bytes.len()));
            let ghost fed = bytes@.subrange(offset as int, bytes@.len() as int).take(pushed as int);
            self.history = Ghost(h0.add(fed));
            proof {
                assert(bytes@.take(offset + pushed) =~= bytes@.take(offset as int).add(fed));
                let done = h0.take(h0.len() - pend0.len());
                assert(self.pending() =~= pend0.add(fed));
                assert(self.history@.take(self.history@.len() - self.pending().len()) =~= done);
                assert(self.history@ =~= done.add(self.pending()));
            }
            offset = offset + pushed;
            let ghost ev0 = events@;
            self.drain(&mut events);
            proof {
                assert(events@ =~= ev0.add(events@.skip(ev0.len() as int)));
                assert(self.emitted() =~= old(self).emitted().add(events@));
            }
        }
    }

    /// Decodes every whole frame that is there, stopping at a malformed head.
    fn drain(&mut self, events: &mut Vec<TracingEvent>)
        requires
            old(self).wf(),
        ensures
            final(self).wf(),
            final(self).history() == old(self).history(),
            final(self).emitted() == old(self).emitted().add(final(events)@.skip(old(events)@.len() as int)),
            final(events)@.take(old(events)@.len() as int) == old(events)@,
            final(events)@.len() >= old(events)@.len(),
            final(self).emitted() == parse_frames(final(self).history()),
            !has_frame(final(self).pending()),
            final(self).state is Malformed <==> malformed_head(final(self).pending()),
            !(final(self).state is Malformed) ==> ring_bytes(final(self).buf).len() < 18,
    {
        loop
            invariant
                self.wf(),
                self.history() == old(self).history(),
                self.emitted() == old(self).emitted().add(events@.skip(old(events)@.len() as int)),
                events@.take(old(events)@.len() as int) == old(events)@,
                events@.len() >= old(events)@.len(),
            decreases self.measure(),
        {
            let ghost em0 = events@;
            match self.try_decode_event() {
                Ok(ev) => {
                    events.push(ev);
                    proof {
                        assert(events@.skip(old(events)@.len() as int) =~= em0.skip(
                            old(events)@.len() as int,
                        ).push(ev));
                        assert(events@.take(old(events)@.len() as int) =~= em0.take(
                            old(events)@.len() as int,
                        ));
                    }
                },
                Err(DecodeStep::Progress) => {},
                Err(DecodeStep::NeedMore) => {
                    proof {
                        self.lemma_settled();
                        self.lemma_small_pending();
                    }
                    return;
                },
                Err(DecodeStep::Malformed) => {
                    proof {
                        assert(malformed_head(self.pending())) by {
                            assert(self.pending()[1] == self.popped@[1]);
                        }
                        self.lemma_settled();
                    }
                    return;
                },
            }
        }
    }

    /// Without a whole frame pending, the ring holds fewer than 18 bytes.
    proof fn lemma_small_pending(&self)
        requires
            self.wf(),
            !has_frame(self.pending()),
            !malformed_head(self.pending()),
        ensures
            ring_bytes(self.buf).len() < 18,
    {
        let pend = self.pending();
        if pend.len() >= 2 {
            assert(pend.len() < frame_len(pend));
        }
    }

    /// Whether the stream ends between frames: nothing pending.
    pub fn ensure_buf_end(&self) -> (r: bool)
        requires
            self.wf(),
        ensures
            r == (self.pending().len() == 0),
            r ==> complete_len(self.history()) == self.history().len(),
    {
        let r = ring_len(&self.buf) == 0 && self.state == ParsingState::NewFrame;
        proof {
            if r {
                let h = self.history@;
                assert(self.pending() =~= Seq::<u8>::empty());
                assert(h.take(h.len() as int) =~= h);
            }
            if self.pending().len() == 0 {
                assert(self.popped@.len() == 0);
            }
        }
        r
    }
}

} // verus!
