//! A minimal tracer: an event is its id with the top bit set, the
//! low byte of the timestamp, and the number of 256 ns periods since the
//! previous event in 6-bit groups (bit 6 marks the group that ends a delta
//! below 63).
use vstd::prelude::*;

verus! {

/// A buffer shared between the tracer and its collector.
pub trait SharedTraceBufferTrait: Sized {
    fn try_push(&mut self, v: &[u8]) -> Option<()>;

    fn try_pop(&mut self, n: u8) -> Option<Vec<u8>>;

    fn new() -> Self;
}

/// Drains the shared buffer on a thread of its own.
pub trait TraceCollector: Sized {
    fn wait_for_finish(self);
}

/// A clock measuring from its creation.
pub trait TimestampImpl: Sized {
    fn now() -> Self;

    fn elapsed_ns(&self) -> u64;
}

/// The 6-bit groups of `d`, least significant first; bit 6 is set on a group
/// written while the rest of `d` is below 63.
pub open spec fn groups6(d: nat) -> Seq<u8>
    decreases d,
{
    if d == 0 {
        Seq::empty()
    } else {
        seq![((d % 64) + if d < 63 { 64nat } else { 0nat }) as u8].add(groups6(d / 64))
    }
}

/// The bytes of one event.
pub open spec fn tracer_event_bytes(v: u8, now: u8, dif_pr: u32) -> Seq<u8> {
    seq![v | 0x80u8, now].add(groups6(dif_pr as nat))
}

/// The bytes of event `v` at timestamp byte `now` after `dif_pr` periods.
pub fn encode_event(v: u8, now: u8, dif_pr: u32) -> (r: Vec<u8>)
    ensures
        r@ == tracer_event_bytes(v, now, dif_pr),
{
    let mut buf: Vec<u8> = Vec::new();
    buf.push(v | 0x80);
    buf.push(now);
    let mut d = dif_pr;
    while d > 0
        invariant
            buf@.add(groups6(d as nat)) == tracer_event_bytes(v, now, dif_pr),
        decreases d,
    {
        let is_last: u8 = if d < 0x3F {
            1
        } else {
            0
        };
        let cur = (d % 64) as u8;
        proof {
            assert(groups6(d as nat) =~= seq![((d % 64) + if d < 63 { 64nat } else { 0nat }) as u8].add(
                groups6((d / 64) as nat),
            ));
        }
        let g = cur + is_last * 64;
        proof {
            assert(buf@.push(g).add(groups6((d / 64) as nat)) =~= buf@.add(groups6(d as nat)));
        }
        buf.push(g);
        d = d / 64;
    }
    proof {
        assert(buf@ =~= buf@.add(groups6(0)));
    }
    buf
}

/// The tracer: the shared buffer and the period of the last event.
pub struct Tracer<F: SharedTraceBufferTrait> {
    ringbuf: F,
    prev_period: u32,
}

impl<F: SharedTraceBufferTrait> Tracer<F> {
    pub closed spec fn prev_period(&self) -> u32 {
        self.prev_period
    }

    pub fn new() -> (r: Self)
        ensures
            r.prev_period() == 0,
    {
        Tracer { ringbuf: F::new(), prev_period: 0 }
    }

    /// For a clock reading of `elapsed_ns`: the periods (256 ns, 24 bits kept)
    /// since the last event, never negative, and the low timestamp byte; the
    /// period moves on only when it grew.
    pub fn capture_timestamp(&mut self, elapsed_ns: u64) -> (r: (u32, u8))
        ensures
            ({
                let now_pr = (elapsed_ns / 256) % 0x1_0000_0000;
                let prev = old(self).prev_period();
                &&& r.1 == elapsed_ns % 256
                &&& r.0 == if now_pr > prev { now_pr - prev } else { 0 }
                &&& final(self).prev_period() == if now_pr > prev { now_pr as u32 } else { prev }
            }),
    {
        let now_pr = ((elapsed_ns >> 8) % 0x1_0000_0000) as u32;
        assert(elapsed_ns >> 8 == elapsed_ns / 256) by (bit_vector);
        let dif_pr = now_pr.saturating_sub(self.prev_period);
        if dif_pr > 0 {
            self.prev_period = now_pr;
        }
        (dif_pr, (elapsed_ns % 256) as u8)
    }

    /// Records event `v` at clock reading `elapsed_ns` into the shared buffer;
    /// returns whether the buffer took it.
    pub fn event(&mut self, v: u8, elapsed_ns: u64) -> (r: bool)
        ensures
            ({
                let now_pr = (elapsed_ns / 256) % 0x1_0000_0000;
                let prev = old(self).prev_period();
                final(self).prev_period() == if now_pr > prev { now_pr as u32 } else { prev }
            }),
    {
        let (dif_pr, now) = self.capture_timestamp(elapsed_ns);
        let buf = encode_event(v, now, dif_pr);
        self.ringbuf.try_push(buf.as_slice()).is_some()
    }

    /// The shared buffer.
    pub fn buffer(&mut self) -> &mut F {
        &mut self.ringbuf
    }
}

} // verus!
