//! Measuring the tick rate of the timestamp counter against a wall clock.
use vstd::prelude::*;

verus! {

/// Ticks per second for `elapsed_tm` ticks over `elapsed_ns` nanoseconds,
/// rounded down and capped at `u64::MAX`; with no time elapsed, `u64::MAX` if
/// the counter moved and 0 if it did not.
pub open spec fn ticks_per_sec(elapsed_tm: u64, elapsed_ns: u64) -> u64 {
    if elapsed_ns == 0 {
        if elapsed_tm == 0 {
            0
        } else {
            u64::MAX
        }
    } else if elapsed_tm as int * 1_000_000_000 / elapsed_ns as int > u64::MAX {
        u64::MAX
    } else {
        (elapsed_tm as int * 1_000_000_000 / elapsed_ns as int) as u64
    }
}

/// Samples the tick counter against the wall clock (in nanoseconds since any
/// fixed point), at most once per interval.
pub struct TimestampFreqDetector {
    prev_tm: u64,
    prev_ns: u64,
    capture_interval: u64,
}

impl TimestampFreqDetector {
    pub closed spec fn prev_tm(&self) -> u64 {
        self.prev_tm
    }

    pub closed spec fn prev_ns(&self) -> u64 {
        self.prev_ns
    }

    pub closed spec fn interval(&self) -> u64 {
        self.capture_interval
    }

    /// Starts measuring at tick `now_tm`, wall time `now_ns`.
    pub fn start(interval_ns: u64, now_tm: u64, now_ns: u64) -> (r: Self)
        ensures
            r.prev_tm() == now_tm,
            r.prev_ns() == now_ns,
            r.interval() == interval_ns,
    {
        TimestampFreqDetector { prev_tm: now_tm, prev_ns: now_ns, capture_interval: interval_ns }
    }

    /// The rate since the last sample, if more than the interval has passed
    /// (then this becomes the last sample).
    pub fn next(&mut self, now_tm: u64, now_ns: u64) -> (r: Option<u64>)
        requires
            old(self).prev_ns() <= now_ns,
        ensures
            now_ns - old(self).prev_ns() > old(self).interval() ==> r == Some(
                ticks_per_sec(
                    vstd::wrapping::u64_specs::wrapping_sub(now_tm, old(self).prev_tm()),
                    (now_ns - old(self).prev_ns()) as u64,
                ),
            ) && final(self).prev_tm() == now_tm && final(self).prev_ns() == now_ns,
            now_ns - old(self).prev_ns() <= old(self).interval() ==> r is None && *final(self)
                == *old(self),
            final(self).interval() == old(self).interval(),
    {
        if now_ns - self.prev_ns > self.capture_interval {
            Some(self.next_forced(now_tm, now_ns))
        } else {
            None
        }
    }

    /// The rate since the last sample; this becomes the last sample.
    pub fn next_forced(&mut self, now_tm: u64, now_ns: u64) -> (r: u64)
        requires
            old(self).prev_ns() <= now_ns,
        ensures
            r == ticks_per_sec(
                vstd::wrapping::u64_specs::wrapping_sub(now_tm, old(self).prev_tm()),
                (now_ns - old(self).prev_ns()) as u64,
            ),
            final(self).prev_tm() == now_tm,
            final(self).prev_ns() == now_ns,
            final(self).interval() == old(self).interval(),
    {
        let elapsed_tm = now_tm.wrapping_sub(self.prev_tm);
        let elapsed_ns = now_ns - self.prev_ns;
        self.prev_tm = now_tm;
        self.prev_ns = now_ns;
        if elapsed_ns == 0 {
            if elapsed_tm == 0 {
                0
            } else {
                u64::MAX
            }
        } else {
            let t = elapsed_tm as u128;
            assert(t * 1_000_000_000 <= 0xffff_ffff_ffff_ffff * 1_000_000_000) by (nonlinear_arith)
                requires
                    t <= 0xffff_ffff_ffff_ffff,
            ;
            let v = t * 1_000_000_000 / (elapsed_ns as u128);
            if v > u64::MAX as u128 {
                u64::MAX
            } else {
                v as u64
            }
        }
    }
}

} // verus!
