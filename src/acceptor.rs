//! Reader of the simpler recorder's stream (see `collector`): an event is a
//! byte with the top bit set (its id), two timestamp bytes, then 7-bit delta
//! groups; it is complete when the next event's first byte arrives.
use vstd::prelude::*;
use crate::collector::{collector_event_bytes, groups7};

verus! {

/// The fixed event ids of the firmware this reader was made for.
#[derive(Clone, Copy, Debug, PartialEq, Eq, Structural)]
pub enum TracingEventId {
    MainLoopStart,
    MainLoopEnd,
    DriversPoll,
    PlcLogicIterStart,
    PlcLogicIterEnd,
    I2cExpanderDriverPoll,
    DebugConnectionDriverNewCmd,
    Rs485DriverPoll,
    IomGetStart,
    PlcPollStart,
    IomSetStart,
    RetainOperationStart,
    I2CWriteOperationStart,
    I2CWriteOperationEnd,
    I2CWriteOperationEndErr,
    I2CReadOperationStart,
    I2CReadOperationEnd,
    I2CReadOperationEndErr,
    I2CWakerCall,
    I2CWakerCallErr,
    SpiOpStart,
    SpiOpFail,
    SpiOpEnd,
    DmaOpStart,
    DmaOpEnd,
    DmaOpEndErr,
    DmaWakerCall,
    DmaPollFn,
    Unknown,
}

impl TracingEventId {
    /// The id's number; `Unknown` is 28.
    pub open spec fn code(self) -> u8 {
        match self {
            TracingEventId::MainLoopStart => 0,
            TracingEventId::MainLoopEnd => 1,
            TracingEventId::DriversPoll => 2,
            TracingEventId::PlcLogicIterStart => 3,
            TracingEventId::PlcLogicIterEnd => 4,
            TracingEventId::I2cExpanderDriverPoll => 5,
            TracingEventId::DebugConnectionDriverNewCmd => 6,
            TracingEventId::Rs485DriverPoll => 7,
            TracingEventId::IomGetStart => 8,
            TracingEventId::PlcPollStart => 9,
            TracingEventId::IomSetStart => 10,
            TracingEventId::RetainOperationStart => 11,
            TracingEventId::I2CWriteOperationStart => 12,
            TracingEventId::I2CWriteOperationEnd => 13,
            TracingEventId::I2CWriteOperationEndErr => 14,
            TracingEventId::I2CReadOperationStart => 15,
            TracingEventId::I2CReadOperationEnd => 16,
            TracingEventId::I2CReadOperationEndErr => 17,
            TracingEventId::I2CWakerCall => 18,
            TracingEventId::I2CWakerCallErr => 19,
            TracingEventId::SpiOpStart => 20,
            TracingEventId::SpiOpFail => 21,
            TracingEventId::SpiOpEnd => 22,
            TracingEventId::DmaOpStart => 23,
            TracingEventId::DmaOpEnd => 24,
            TracingEventId::DmaOpEndErr => 25,
            TracingEventId::DmaWakerCall => 26,
            TracingEventId::DmaPollFn => 27,
            TracingEventId::Unknown => 28,
        }
    }

    /// The id numbered `v`, or `Unknown` from 28 on.
    pub fn from_u8(v: u8) -> (r: Self)
        ensures
            r == TracingEventId::from_spec(v),
            v < 28 ==> r.code() == v,
            v >= 28 ==> r == TracingEventId::Unknown,
    {
        match v {
            0 => TracingEventId::MainLoopStart,
            1 => TracingEventId::MainLoopEnd,
            2 => TracingEventId::DriversPoll,
            3 => TracingEventId::PlcLogicIterStart,
            4 => TracingEventId::PlcLogicIterEnd,
            5 => TracingEventId::I2cExpanderDriverPoll,
            6 => TracingEventId::DebugConnectionDriverNewCmd,
            7 => TracingEventId::Rs485DriverPoll,
            8 => TracingEventId::IomGetStart,
            9 => TracingEventId::PlcPollStart,
            10 => TracingEventId::IomSetStart,
            11 => TracingEventId::RetainOperationStart,
            12 => TracingEventId::I2CWriteOperationStart,
            13 => TracingEventId::I2CWriteOperationEnd,
            14 => TracingEventId::I2CWriteOperationEndErr,
            15 => TracingEventId::I2CReadOperationStart,
            16 => TracingEventId::I2CReadOperationEnd,
            17 => TracingEventId::I2CReadOperationEndErr,
            18 => TracingEventId::I2CWakerCall,
            19 => TracingEventId::I2CWakerCallErr,
            20 => TracingEventId::SpiOpStart,
            21 => TracingEventId::SpiOpFail,
            22 => TracingEventId::SpiOpEnd,
            23 => TracingEventId::DmaOpStart,
            24 => TracingEventId::DmaOpEnd,
            25 => TracingEventId::DmaOpEndErr,
            26 => TracingEventId::DmaWakerCall,
            27 => TracingEventId::DmaPollFn,
            _ => TracingEventId::Unknown,
        }
    }
}

/// An event read back: id, low 16 bits of its timestamp, period delta.
#[derive(Clone, Copy, Debug, PartialEq, Eq, Structural)]
pub struct TracingEvent(pub TracingEventId, pub u16, pub u64);

/// The value of 7-bit groups, least significant first.
pub open spec fn g7_value(s: Seq<u8>) -> nat
    decreases s.len(),
{
    if s.len() == 0 {
        0
    } else {
        s[0] as nat + 128 * g7_value(s.drop_first())
    }
}

pub open spec fn pow128(k: nat) -> nat
    decreases k,
{
    if k == 0 {
        1
    } else {
        128 * pow128((k - 1) as nat)
    }
}

/// Reader state. `PrOrEventId` holds the id, the timestamp bits, the delta so
/// far (mod 2^64) and the weight of the next group (mod 2^64).
#[derive(Clone, Copy, Debug, PartialEq, Eq, Structural)]
pub enum ParsingStateMachine {
    EventId,
    TimestampHigh(TracingEventId),
    TimestampLow(TracingEventId, u8),
    TimestampPrOrEventId(TracingEventId, u16, u64, u64),
}

/// The state reached after the bytes `p` of the current event.
pub open spec fn reader_matches(st: ParsingStateMachine, p: Seq<u8>) -> bool {
    match st {
        ParsingStateMachine::EventId => p.len() == 0,
        ParsingStateMachine::TimestampHigh(id) => p.len() == 1 && id == id_of(p[0]),
        ParsingStateMachine::TimestampLow(id, hi) => p.len() == 2 && id == id_of(p[0]) && hi == p[1],
        ParsingStateMachine::TimestampPrOrEventId(id, now, pr, mult) => {
            &&& p.len() >= 3
            &&& id == id_of(p[0])
            &&& now == p[1] as int * 256 + p[2] as int
            &&& forall|i: int| 3 <= i < p.len() ==> #[trigger] p[i] < 128
            &&& pr as int == g7_value(p.skip(3)) % 0x1_0000_0000_0000_0000
            &&& mult as int == pow128((p.len() - 3) as nat) % 0x1_0000_0000_0000_0000
        },
    }
}

/// The event whose bytes (since its first byte) are `p`.
pub open spec fn event_of(p: Seq<u8>) -> TracingEvent {
    TracingEvent(
        id_of(p[0]),
        (p[1] as int * 256 + p[2] as int) as u16,
        (g7_value(p.skip(3)) % 0x1_0000_0000_0000_0000) as u64,
    )
}

/// Reading a stream: the events ended so far and the bytes of the event in
/// progress. A byte with the top bit set ends the event in progress once that
/// event has its three leading bytes, and starts the next one.
pub open spec fn reader_run(s: Seq<u8>) -> (Seq<TracingEvent>, Seq<u8>)
    decreases s.len(),
{
    if s.len() == 0 {
        (Seq::empty(), Seq::empty())
    } else {
        let (out, p) = reader_run(s.drop_last());
        let b = s.last();
        if p.len() >= 3 && b >= 128 {
            (out.push(event_of(p)), seq![b])
        } else {
            (out, p.push(b))
        }
    }
}

/// The id carried by an event's first byte.
pub open spec fn id_of(b: u8) -> TracingEventId {
    if b % 128 < 28 {
        choose|t: TracingEventId| t.code() == b % 128 && t != TracingEventId::Unknown
    } else {
        TracingEventId::Unknown
    }
}

proof fn lemma_g7_push(s: Seq<u8>, b: u8)
    ensures
        g7_value(s.push(b)) == g7_value(s) + b * pow128(s.len()),
    decreases s.len(),
{
    let t = s.push(b);
    if s.len() == 0 {
        assert(t.drop_first() =~= Seq::<u8>::empty());
        assert(g7_value(t.drop_first()) == 0);
        assert(t[0] == b);
        assert(g7_value(t) == t[0] + 128 * g7_value(t.drop_first()));
        assert(pow128(0) == 1);
    } else {
        lemma_g7_push(s.drop_first(), b);
        assert(t.drop_first() =~= s.drop_first().push(b));
        assert(t[0] == s[0]);
        assert(g7_value(t) == t[0] + 128 * g7_value(t.drop_first()));
        assert(g7_value(s) == s[0] + 128 * g7_value(s.drop_first()));
        assert(128 * (g7_value(s.drop_first()) + b * pow128(s.drop_first().len())) == 128 * g7_value(
            s.drop_first(),
        ) + b * pow128(s.len())) by (nonlinear_arith)
            requires
                pow128(s.len()) == 128 * pow128(s.drop_first().len()),
        ;
    }
}

proof fn lemma_id_of(b: u8)
    ensures
        id_of(b) == TracingEventId::from_spec(b & 0x7F),
{
    assert(b & 0x7F == b % 128) by (bit_vector);
    if b % 128 < 28 {
        let t = TracingEventId::from_spec(b % 128);
        assert(t.code() == b % 128 && t != TracingEventId::Unknown);
        let c = choose|t: TracingEventId| t.code() == b % 128 && t != TracingEventId::Unknown;
        assert(c.code() == t.code());
    }
}

impl TracingEventId {
    pub open spec fn from_spec(v: u8) -> TracingEventId {
        match v {
            0 => TracingEventId::MainLoopStart,
            1 => TracingEventId::MainLoopEnd,
            2 => TracingEventId::DriversPoll,
            3 => TracingEventId::PlcLogicIterStart,
            4 => TracingEventId::PlcLogicIterEnd,
            5 => TracingEventId::I2cExpanderDriverPoll,
            6 => TracingEventId::DebugConnectionDriverNewCmd,
            7 => TracingEventId::Rs485DriverPoll,
            8 => TracingEventId::IomGetStart,
            9 => TracingEventId::PlcPollStart,
            10 => TracingEventId::IomSetStart,
            11 => TracingEventId::RetainOperationStart,
            12 => TracingEventId::I2CWriteOperationStart,
            13 => TracingEventId::I2CWriteOperationEnd,
            14 => TracingEventId::I2CWriteOperationEndErr,
            15 => TracingEventId::I2CReadOperationStart,
            16 => TracingEventId::I2CReadOperationEnd,
            17 => TracingEventId::I2CReadOperationEndErr,
            18 => TracingEventId::I2CWakerCall,
            19 => TracingEventId::I2CWakerCallErr,
            20 => TracingEventId::SpiOpStart,
            21 => TracingEventId::SpiOpFail,
            22 => TracingEventId::SpiOpEnd,
            23 => TracingEventId::DmaOpStart,
            24 => TracingEventId::DmaOpEnd,
            25 => TracingEventId::DmaOpEndErr,
            26 => TracingEventId::DmaWakerCall,
            27 => TracingEventId::DmaPollFn,
            _ => TracingEventId::Unknown,
        }
    }
}

impl ParsingStateMachine {
    /// Takes byte `b`; when it starts a new event, returns the event it ends.
    pub fn next_byte(&mut self, b: u8) -> (r: Option<TracingEvent>)
        ensures
            forall|p: Seq<u8>|
                #[trigger] reader_matches(*old(self), p) ==> if p.len() >= 3 && b >= 128 {
                    &&& r == Some(event_of(p))
                    &&& reader_matches(*final(self), seq![b])
                } else {
                    r is None && reader_matches(*final(self), p.push(b))
                },
    {
        let ghost st = *self;
        match *self {
            ParsingStateMachine::EventId => {
                proof {
                    lemma_id_of(b);
                }
                *self = ParsingStateMachine::TimestampHigh(TracingEventId::from_u8(b & 0x7F));
                proof {
                    assert forall|p: Seq<u8>| #[trigger] reader_matches(st, p) implies reader_matches(*self, p.push(b)) by {
                        assert(p.push(b)[0] == b);
                    }
                }
                None
            },
            ParsingStateMachine::TimestampHigh(event_id) => {
                *self = ParsingStateMachine::TimestampLow(event_id, b);
                proof {
                    assert forall|p: Seq<u8>| #[trigger] reader_matches(st, p) implies reader_matches(*self, p.push(b)) by {
                        assert(p.push(b)[0] == p[0]);
                    }
                }
                None
            },
            ParsingStateMachine::TimestampLow(event_id, hi) => {
                let now = (hi as u16) * 256 + b as u16;
                *self = ParsingStateMachine::TimestampPrOrEventId(event_id, now, 0, 1);
                proof {
                    assert forall|p: Seq<u8>| #[trigger] reader_matches(st, p) implies reader_matches(*self, p.push(b)) by {
                        let q = p.push(b);
                        assert(q[0] == p[0]);
                        assert(q[1] == p[1]);
                        assert(q.skip(3) =~= Seq::<u8>::empty());
                    }
                }
                None
            },
            ParsingStateMachine::TimestampPrOrEventId(event_id, now, pr, mult) => {
                if b & 0x80 != 0 {
                    proof {
                        assert((b & 0x80 != 0) == (b >= 128)) by (bit_vector);
                        lemma_id_of(b);
                    }
                    *self = ParsingStateMachine::TimestampHigh(TracingEventId::from_u8(b & 0x7F));
                    Some(TracingEvent(event_id, now, pr))
                } else {
                    proof {
                        assert((b & 0x80 != 0) == (b >= 128)) by (bit_vector);
                    }
                    let new_pr = pr.wrapping_add((b as u64).wrapping_mul(mult));
                    let new_mult = mult.wrapping_mul(128);
                    *self = ParsingStateMachine::TimestampPrOrEventId(event_id, now, new_pr, new_mult);
                    proof {
                        assert forall|p: Seq<u8>| #[trigger] reader_matches(st, p) implies reader_matches(*self, p.push(b)) by {
                            let q = p.push(b);
                            let s = p.skip(3);
                            let m = 0x1_0000_0000_0000_0000int;
                            assert(q.skip(3) =~= s.push(b));
                            assert(q[0] == p[0] && q[1] == p[1] && q[2] == p[2]);
                            lemma_g7_push(s, b);
                            vstd::arithmetic::div_mod::lemma_mul_mod_noop_right(b as int, pow128(s.len()) as int, m);
                            vstd::arithmetic::div_mod::lemma_add_mod_noop(g7_value(s) as int, (b * pow128(s.len())) as int, m);
                            vstd::arithmetic::div_mod::lemma_mod_twice((b as int * mult as int), m);
                            vstd::arithmetic::div_mod::lemma_mod_twice(g7_value(s) as int, m);
                            vstd::arithmetic::div_mod::lemma_mul_mod_noop_left(pow128(s.len()) as int, 128, m);
                            assert(pow128(s.len() + 1) == pow128(s.len()) * 128);
                            assert forall|i: int| 3 <= i < q.len() implies #[trigger] q[i] < 128 by {
                                if i < p.len() {
                                    assert(q[i] == p[i]);
                                }
                            }
                        }
                    }
                    None
                }
            },
        }
    }

    /// Takes every byte of `bytes` and returns the events they end, in order
    /// (see `reader_run`); the last event stays in progress until the next
    /// one starts.
    pub fn parse_many(&mut self, bytes: &[u8]) -> (r: Vec<TracingEvent>)
        requires
            *old(self) == ParsingStateMachine::EventId,
        ensures
            r@ == reader_run(bytes@).0,
            reader_matches(*final(self), reader_run(bytes@).1),
    {
        let mut out: Vec<TracingEvent> = Vec::new();
        let mut i: usize = 0;
        proof {
            assert(bytes@.take(0) =~= Seq::<u8>::empty());
        }
        while i < bytes.len()
            invariant
                i <= bytes@.len(),
                out@ == reader_run(bytes@.take(i as int)).0,
                reader_matches(*self, reader_run(bytes@.take(i as int)).1),
            decreases bytes@.len() - i,
        {
            let ghost p = reader_run(bytes@.take(i as int)).1;
            let b = bytes[i];
            proof {
                assert(bytes@.take(i + 1).drop_last() =~= bytes@.take(i as int));
                assert(bytes@.take(i + 1).last() == b);
                assert(reader_matches(*self, p));
            }
            match self.next_byte(b) {
                Some(e) => out.push(e),
                None => {},
            }
            i = i + 1;
        }
        proof {
            assert(bytes@.take(bytes@.len() as int) =~= bytes@);
        }
        out
    }
}

/// The bytes the collector writes for an event `(id, now, dif)`.
pub open spec fn written(e: (u8, u16, u64)) -> Seq<u8> {
    collector_event_bytes(e.0, e.1, e.2)
}

/// The bytes of a sequence of events.
pub open spec fn written_all(es: Seq<(u8, u16, u64)>) -> Seq<u8>
    decreases es.len(),
{
    if es.len() == 0 {
        Seq::empty()
    } else {
        written_all(es.drop_last()).add(written(es.last()))
    }
}

/// The event read back for an event written with an id below 128.
pub open spec fn read_back(e: (u8, u16, u64)) -> TracingEvent {
    TracingEvent(TracingEventId::from_spec(e.0), e.1, e.2)
}

proof fn lemma_groups7(d: nat)
    ensures
        g7_value(groups7(d)) == d,
        forall|i: int| 0 <= i < groups7(d).len() ==> #[trigger] groups7(d)[i] < 128,
    decreases d,
{
    if d > 0 {
        lemma_groups7(d / 128);
        let g = groups7(d);
        assert(g.drop_first() =~= groups7(d / 128));
        assert forall|i: int| 0 <= i < g.len() implies #[trigger] g[i] < 128 by {
            if i > 0 {
                assert(g[i] == groups7(d / 128)[i - 1]);
            }
        }
    }
}

/// Feeding bytes that are all below 128 extends the event in progress.
proof fn lemma_run_low(s: Seq<u8>, t: Seq<u8>)
    requires
        forall|i: int| 0 <= i < t.len() ==> #[trigger] t[i] < 128,
    ensures
        reader_run(s.add(t)) == (reader_run(s).0, reader_run(s).1.add(t)),
    decreases t.len(),
{
    if t.len() == 0 {
        assert(s.add(t) =~= s);
        assert(reader_run(s).1.add(t) =~= reader_run(s).1);
    } else {
        let t0 = t.drop_last();
        assert forall|i: int| 0 <= i < t0.len() implies #[trigger] t0[i] < 128 by {
            assert(t0[i] == t[i]);
        }
        lemma_run_low(s, t0);
        assert(s.add(t).drop_last() =~= s.add(t0));
        assert(s.add(t).last() == t.last());
        assert(reader_run(s).1.add(t0).push(t.last()) =~= reader_run(s).1.add(t));
    }
}

/// Reading what the collector wrote for `es`, followed by the first byte of one
/// more event, gives back exactly the events of `es` (ids below 128), in order.
pub proof fn lemma_reads_collector(es: Seq<(u8, u16, u64)>, next_first: u8)
    requires
        forall|i: int| 0 <= i < es.len() ==> (#[trigger] es[i]).0 < 128,
        next_first >= 128,
    ensures
        reader_run(written_all(es).push(next_first)).0 == es.map_values(|e: (u8, u16, u64)| read_back(e)),
{
    lemma_reads_collector_prefix(es);
    if es.len() == 0 {
        assert(written_all(es).push(next_first).drop_last() =~= written_all(es));
        assert(es.map_values(|e: (u8, u16, u64)| read_back(e)) =~= Seq::<TracingEvent>::empty());
    } else {
        let s = written_all(es).push(next_first);
        assert(s.drop_last() =~= written_all(es));
        let p = written(es.last());
        lemma_event_of_written(es.last());
        assert(es.drop_last().map_values(|e: (u8, u16, u64)| read_back(e)).push(read_back(es.last()))
            =~= es.map_values(|e: (u8, u16, u64)| read_back(e)));
    }
}

proof fn lemma_event_of_written(e: (u8, u16, u64))
    requires
        e.0 < 128,
    ensures
        written(e).len() >= 3,
        event_of(written(e)) == read_back(e),
{
    let w = written(e);
    lemma_groups7(e.2 as nat);
    assert(w.skip(3) =~= groups7(e.2 as nat));
    let id = e.0;
    let b0 = id | 0x80u8;
    assert(b0 % 128 == id && b0 >= 128) by (bit_vector)
        requires
            id < 128,
            b0 == id | 0x80u8,
    ;
    lemma_id_of(b0);
    assert(b0 & 0x7F == id) by (bit_vector)
        requires
            id < 128,
            b0 == id | 0x80u8,
    ;
    vstd::arithmetic::div_mod::lemma_small_mod(e.2 as nat, 0x1_0000_0000_0000_0000);
    assert((e.1 / 256) as u8 as int * 256 + (e.1 % 256) as u8 as int == e.1);
}

/// After what the collector wrote for `es`, all of them but the last are read
/// back and the last one is in progress.
proof fn lemma_reads_collector_prefix(es: Seq<(u8, u16, u64)>)
    requires
        forall|i: int| 0 <= i < es.len() ==> (#[trigger] es[i]).0 < 128,
    ensures
        es.len() == 0 ==> reader_run(written_all(es)) == (Seq::<TracingEvent>::empty(), Seq::<u8>::empty()),
        es.len() > 0 ==> reader_run(written_all(es)) == (
            es.drop_last().map_values(|e: (u8, u16, u64)| read_back(e)),
            written(es.last()),
        ),
    decreases es.len(),
{
    if es.len() == 0 {
        assert(written_all(es) =~= Seq::<u8>::empty());
    } else {
        let prev = es.drop_last();
        assert forall|i: int| 0 <= i < prev.len() implies (#[trigger] prev[i]).0 < 128 by {
            assert(prev[i] == es[i]);
        }
        lemma_reads_collector_prefix(prev);
        let e = es.last();
        let w = written(e);
        let id = e.0;
        let b0 = id | 0x80u8;
        assert(b0 >= 128) by (bit_vector)
            requires
                b0 == id | 0x80u8,
        ;
        let head = written_all(prev).push(b0);
        assert(head.drop_last() =~= written_all(prev));
        // the first byte ends the previous event (if any) and starts this one
        let (out1, p1) = reader_run(head);
        if prev.len() > 0 {
            lemma_event_of_written(prev.last());
            assert(out1 == prev.drop_last().map_values(|x: (u8, u16, u64)| read_back(x)).push(read_back(prev.last())));
            assert(prev.drop_last().map_values(|x: (u8, u16, u64)| read_back(x)).push(read_back(prev.last()))
                =~= prev.map_values(|x: (u8, u16, u64)| read_back(x)));
        } else {
            assert(prev.map_values(|x: (u8, u16, u64)| read_back(x)) =~= Seq::<TracingEvent>::empty());
        }
        assert(p1 =~= seq![b0]);
        // the two timestamp bytes never end an event
        let hi = (e.1 / 256) as u8;
        let lo = (e.1 % 256) as u8;
        let h1 = head.push(hi);
        assert(h1.drop_last() =~= head);
        assert(h1.last() == hi);
        assert(reader_run(h1) == (out1, p1.push(hi)));
        let h2 = h1.push(lo);
        assert(h2.drop_last() =~= h1);
        assert(h2.last() == lo);
        assert(p1.push(hi).len() == 2);
        assert(reader_run(h2) == (out1, p1.push(hi).push(lo)));
        assert(p1.push(hi).push(lo) =~= seq![b0, hi, lo]);
        // the delta groups are all below 128
        lemma_groups7(e.2 as nat);
        lemma_run_low(h2, groups7(e.2 as nat));
        assert(h2.add(groups7(e.2 as nat)) =~= written_all(es));
        assert(seq![b0, (e.1 / 256) as u8, (e.1 % 256) as u8].add(groups7(e.2 as nat)) =~= w);
    }
}

} // verus!
