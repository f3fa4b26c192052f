//! What the sender worker emits: the encoder info once, then on every poll the
//! tick rate when it is due, the store's contents when a drain is due, one
//! missed-page packet per evicted entry, and at finalization a last tick rate
//! and the goodbye marker.
//!
//! The worker's thread reads the clocks, sleeps and writes the bytes out; the
//! bytes themselves are decided here.
use vstd::prelude::*;
use crate::bytes::u64_le;
use crate::encoder::{
    data_packet, encoder_info_packet, frequency_packet, goodbye_packet, length_prefixed,
    missed_page_packet, PACKET_DATA, PACKET_FREQUENCY, PACKET_GOODBYE, PACKET_MISSED_PAGE,
};
use crate::freq::{ticks_per_sec, TimestampFreqDetector};
use crate::global_storage::{entries_bytes, GlobalStorage};

verus! {

/// The missed-page packets of evicted headers, in order.
pub open spec fn missed_pages_bytes(headers: Seq<Seq<u8>>) -> Seq<u8>
    decreases headers.len(),
{
    if headers.len() == 0 {
        Seq::empty()
    } else {
        missed_pages_bytes(headers.drop_last()).add(
            length_prefixed(PACKET_MISSED_PAGE, headers.last()),
        )
    }
}

/// The frequency packet for a rate.
pub open spec fn frequency_bytes(tps: u64) -> Seq<u8> {
    seq![PACKET_FREQUENCY].add(u64_le(tps))
}

fn append(out: &mut Vec<u8>, data: Vec<u8>)
    ensures
        final(out)@ == old(out)@.add(data@),
{
    let mut i: usize = 0;
    while i < data.len()
        invariant
            i <= data@.len(),
            out@ == old(out)@.add(data@.take(i as int)),
        decreases data@.len() - i,
    {
        assert(data@.take(i + 1) =~= data@.take(i as int).push(data@[i as int]));
        out.push(data[i]);
        i = i + 1;
    }
    assert(data@.take(data@.len() as int) =~= data@);
}

/// State of the sender worker between polls.
pub struct SenderWorker {
    freq_detector: TimestampFreqDetector,
}

impl SenderWorker {
    pub closed spec fn detector(&self) -> TimestampFreqDetector {
        self.freq_detector
    }

    /// Starts the worker at tick `now_tm`, wall time `now_ns`; returns it with
    /// the encoder-info packet for the serialized `info`.
    pub fn start(info: &[u8], interval_ns: u64, now_tm: u64, now_ns: u64) -> (r: (Self, Vec<u8>))
        ensures
            r.1@ == length_prefixed(crate::encoder::PACKET_ENCODER_INFO, info@),
            r.0.detector().prev_tm() == now_tm,
            r.0.detector().prev_ns() == now_ns,
            r.0.detector().interval() == interval_ns,
    {
        let freq_detector = TimestampFreqDetector::start(interval_ns, now_tm, now_ns);
        (SenderWorker { freq_detector }, encoder_info_packet(info))
    }

    /// One poll at tick `now_tm`, wall time `now_ns`. Returns the bytes to send,
    /// in order: a frequency packet if the interval has passed; a data packet
    /// with the whole store if it drains (always at finalization, else from the
    /// flush threshold on); a missed-page packet per evicted header; and when
    /// finalizing, a frequency packet with the rate since the previous sample
    /// (the one just sent, if any) and the goodbye marker.
    pub fn tick(&mut self, store: &mut GlobalStorage, now_tm: u64, now_ns: u64, finalizing: bool) -> (r: Vec<u8>)
        requires
            old(store).wf(),
            old(self).detector().prev_ns() <= now_ns,
        ensures
            final(store).wf(),
            final(store).skipped() == Seq::<Seq<u8>>::empty(),
            ({
                let d = old(self).detector();
                let due = now_ns - d.prev_ns() > d.interval();
                let tps = ticks_per_sec(
                    vstd::wrapping::u64_specs::wrapping_sub(now_tm, d.prev_tm()),
                    (now_ns - d.prev_ns()) as u64,
                );
                let freq_part = if due {
                    frequency_bytes(tps)
                } else {
                    Seq::<u8>::empty()
                };
                let drains = old(store).fill() > 0 && (finalizing || old(store).fill()
                    >= old(store).config().flush_threshold);
                let data_part = if drains {
                    length_prefixed(PACKET_DATA, entries_bytes(old(store).entries()))
                } else {
                    Seq::<u8>::empty()
                };
                let final_part = if finalizing {
                    frequency_bytes(tps).push(PACKET_GOODBYE)
                } else {
                    Seq::<u8>::empty()
                };
                &&& r@ == freq_part.add(data_part).add(missed_pages_bytes(old(store).skipped())).add(
                    final_part,
                )
                &&& drains ==> final(store).entries() == Seq::<crate::global_storage::Entry>::empty()
                &&& !drains ==> final(store).entries() == old(store).entries()
            }),
    {
        let mut out: Vec<u8> = Vec::new();
        let ghost d = self.freq_detector;
        let sample = self.freq_detector.next(now_tm, now_ns);
        match sample {
            Some(tps) => append(&mut out, frequency_packet(tps)),
            None => {},
        }
        let ghost after_freq = out@;
        let failed_pages = store.take_failed_pages();
        let slices = store.try_take_buf(finalizing);
        match slices {
            Some((slice1, slice2)) => {
                proof {
                    assert(slice1@.len() + slice2@.len() <= u64::MAX);
                }
                append(&mut out, data_packet(slice1.as_slice(), slice2.as_slice()));
            },
            None => {},
        }
        let ghost after_data = out@;
        let mut i: usize = 0;
        while i < failed_pages.len()
            invariant
                i <= failed_pages@.len(),
                out@ == after_data.add(
                    missed_pages_bytes(failed_pages@.map_values(|v: Vec<u8>| v@).take(i as int)),
                ),
            decreases failed_pages@.len() - i,
        {
            let ghost hs = failed_pages@.map_values(|v: Vec<u8>| v@);
            proof {
                assert(hs.take(i + 1).drop_last() =~= hs.take(i as int));
            }
            append(&mut out, missed_page_packet(failed_pages[i].as_slice()));
            i = i + 1;
        }
        proof {
            let hs = failed_pages@.map_values(|v: Vec<u8>| v@);
            assert(hs.take(hs.len() as int) =~= hs);
        }
        let ghost after_missed = out@;
        if finalizing {
            let tps = match sample {
                Some(t) => t,
                None => self.freq_detector.next_forced(now_tm, now_ns),
            };
            append(&mut out, frequency_packet(tps));
            append(&mut out, goodbye_packet());
            proof {
                assert(out@ =~= after_missed.add(frequency_bytes(tps).push(PACKET_GOODBYE)));
            }
        } else {
            assert(out@ =~= after_missed.add(Seq::<u8>::empty()));
        }
        proof {
            let dd = d;
            let due = now_ns - dd.prev_ns() > dd.interval();
            if !due {
                assert(after_freq =~= Seq::<u8>::empty());
            }
            if slices is None {
                assert(after_data =~= after_freq.add(Seq::<u8>::empty()));
            }
        }
        out
    }
}

} // verus!
