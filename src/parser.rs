//! Reading side of a thread's packets: absolute timestamps from the deltas,
//! conversion to nanoseconds, and pairing of range starts with their ends.
use vstd::prelude::*;
use crate::frame::TracingEvent;
use crate::id_mapping::{EventType, IdStoreMap};
use crate::frame::{complete_len, lemma_round_trip, parse_frames};
use crate::headers::LocalPacketHeader;
use crate::local_storage::{id_below, sum_difs, tm_modulus, LocalStorage};

verus! {

/// The absolute timestamp of event `i` of a packet: the packet's start plus the
/// deltas of the events after the first, up to and including `i` (mod 2^64).
pub open spec fn absolute_time(start: u64, events: Seq<TracingEvent>, i: int) -> u64 {
    ((start + sum_difs(events.subrange(1, i + 1))) % tm_modulus()) as u64
}

/// The absolute timestamps of a packet's events, in ticks.
pub fn absolute_timestamps(start: u64, events: &Vec<TracingEvent>) -> (r: Vec<u64>)
    ensures
        r@.len() == events@.len(),
        forall|i: int| 0 <= i < events@.len() ==> #[trigger] r@[i] == absolute_time(start, events@, i),
{
    let mut r: Vec<u64> = Vec::new();
    let mut cur: u64 = start;
    let mut i: usize = 0;
    while i < events.len()
        invariant
            i <= events@.len(),
            r@.len() == i,
            forall|j: int| 0 <= j < i ==> #[trigger] r@[j] == absolute_time(start, events@, j),
            i > 0 ==> cur == absolute_time(start, events@, i - 1),
            i == 0 ==> cur == start,
        decreases events@.len() - i,
    {
        if i > 0 {
            let d = events[i].dif_tm();
            proof {
                let es = events@;
                assert(es.subrange(1, i + 1).drop_last() =~= es.subrange(1, i as int));
                assert(es.subrange(1, i + 1).last() == es[i as int]);
                let s = start + sum_difs(es.subrange(1, i as int));
                let m = tm_modulus();
                vstd::arithmetic::div_mod::lemma_add_mod_noop(s, d as int, m);
                vstd::arithmetic::div_mod::lemma_mod_twice(s, m);
                vstd::arithmetic::div_mod::lemma_small_mod(d as nat, m as nat);
            }
            cur = cur.wrapping_add(d);
        } else {
            proof {
                assert(events@.subrange(1, 1) =~= Seq::<TracingEvent>::empty());
                vstd::arithmetic::div_mod::lemma_small_mod(start as nat, tm_modulus() as nat);
            }
        }
        r.push(cur);
        i = i + 1;
    }
    r
}

/// Sums of deltas grow along the prefixes of a packet.
pub proof fn lemma_sum_difs_prefix(events: Seq<TracingEvent>, i: int, j: int)
    requires
        0 <= i <= j < events.len(),
    ensures
        sum_difs(events.subrange(1, i + 1)) <= sum_difs(events.subrange(1, j + 1)),
    decreases j - i,
{
    if i < j {
        lemma_sum_difs_prefix(events, i, j - 1);
        let s = events.subrange(1, j + 1);
        assert(s.drop_last() =~= events.subrange(1, j));
    }
}

/// Delta monotonicity: the reconstructed timestamps of a packet never decrease,
/// as long as the packet start plus all its deltas stays below 2^64.
pub proof fn lemma_delta_monotonic(start: u64, events: Seq<TracingEvent>, i: int, j: int)
    requires
        0 <= i <= j < events.len(),
        start + sum_difs(events.subrange(1, events.len() as int)) < tm_modulus(),
    ensures
        absolute_time(start, events, i) <= absolute_time(start, events, j),
{
    lemma_sum_difs_prefix(events, i, j);
    lemma_sum_difs_prefix(events, j, events.len() - 1);
    lemma_sum_difs_nonneg(events.subrange(1, i + 1));
    vstd::arithmetic::div_mod::lemma_small_mod(
        (start + sum_difs(events.subrange(1, i + 1))) as nat,
        tm_modulus() as nat,
    );
    vstd::arithmetic::div_mod::lemma_small_mod(
        (start + sum_difs(events.subrange(1, j + 1))) as nat,
        tm_modulus() as nat,
    );
}

pub proof fn lemma_sum_difs_nonneg(events: Seq<TracingEvent>)
    ensures
        sum_difs(events) >= 0,
    decreases events.len(),
{
    if events.len() > 0 {
        lemma_sum_difs_nonneg(events.drop_last());
    }
}

/// Round trip on one thread: decoding the payload of the packet a recorder is
/// filling gives back exactly the events it recorded, in order; every local id
/// among them names a pair of the dictionary the header carries; and
/// reconstructing their timestamps from the packet start gives back the
/// timestamps they were recorded at.
pub proof fn lemma_recorder_decodes(ls: &LocalStorage)
    requires
        ls.wf(),
    ensures
        parse_frames(ls.payload()) == ls.events(),
        forall|i: int| 0 <= i < ls.events().len() ==> id_below(#[trigger] parse_frames(ls.payload())[i], ls.tags().len() as int),
        forall|i: int|
            0 <= i < ls.events().len() ==> #[trigger] absolute_time(ls.start_tm(), ls.events(), i)
                == ls.times()[i],
{
    ls.lemma_payload_frames();
    lemma_round_trip(ls.events());
    ls.lemma_ids_in_store();
    if ls.events().len() > 0 {
        ls.lemma_delta_reconstruction();
    }
}

/// Round trip of a flushed packet: decoding its payload gives back the events
/// recorded since the previous flush, in order and complete; each local id among
/// them names a pair of the dictionary in its header; and the timestamps
/// reconstructed from the header's start are the ones the events were recorded
/// at, the last being the header's end.
pub proof fn lemma_flushed_packet_decodes(
    before: LocalStorage,
    after: LocalStorage,
    r: Option<(LocalPacketHeader, Vec<u8>)>,
)
    requires
        before.wf(),
        after.flushed(before, r),
        r is Some,
    ensures
        parse_frames((r->0).1@) == before.events(),
        complete_len((r->0).1@) == (r->0).1@.len(),
        forall|i: int|
            0 <= i < before.events().len() ==> id_below(
                #[trigger] before.events()[i],
                (r->0).0.id_store@.len() as int,
            ),
        forall|i: int|
            0 <= i < before.events().len() ==> #[trigger] absolute_time(
                (r->0).0.start_timestamp,
                before.events(),
                i,
            ) == before.times()[i],
        before.events().len() > 0,
        (r->0).0.end_timestamp == before.times()[before.events().len() - 1],
{
    before.lemma_payload_frames();
    lemma_round_trip(before.events());
    before.lemma_ids_in_store();
    before.lemma_delta_reconstruction();
    before.lemma_last_time();
}

/// Ticks converted to nanoseconds at `ticks_per_sec` (1 tick = 1 ns when unknown or 0).
pub open spec fn ticks_to_ns_spec(ticks: u64, ticks_per_sec: Option<u64>) -> u64 {
    match ticks_per_sec {
        Some(f) => if f == 0 {
            ticks
        } else {
            ((ticks as int * 1_000_000_000 / f as int) % 0x1_0000_0000_0000_0000) as u64
        },
        None => ticks,
    }
}

pub fn ticks_to_ns(ticks: u64, ticks_per_sec: Option<u64>) -> (r: u64)
    ensures
        r == ticks_to_ns_spec(ticks, ticks_per_sec),
{
    match ticks_per_sec {
        Some(f) => {
            if f == 0 {
                ticks
            } else {
                let t = ticks as u128;
                assert(t * 1_000_000_000 <= 0xffff_ffff_ffff_ffff * 1_000_000_000) by (nonlinear_arith)
                    requires
                        t <= 0xffff_ffff_ffff_ffff,
                ;
                let v = t * 1_000_000_000 / (f as u128);
                (v % 0x1_0000_0000_0000_0000) as u64
            }
        },
        None => ticks,
    }
}

/// How many events in a row up to `i` (after the first of the packet) had a zero delta.
pub open spec fn zero_run(events: Seq<TracingEvent>, i: int) -> int
    decreases i,
{
    if i <= 0 {
        0
    } else if events[i].dif() == 0 {
        zero_run(events, i - 1) + 1
    } else {
        0
    }
}

/// The time shown for event `i`: its absolute time in nanoseconds, nudged 10 ns
/// forward per preceding event of a zero-delta run so that equal times keep
/// their order in a viewer.
pub open spec fn display_time(start: u64, events: Seq<TracingEvent>, ticks_per_sec: Option<u64>, i: int) -> int {
    ticks_to_ns_spec(absolute_time(start, events, i), ticks_per_sec) + 10 * zero_run(events, i)
}

/// The display times of a packet's events (see `display_time`), saturating at `u64::MAX`.
pub fn display_timestamps(start: u64, events: &Vec<TracingEvent>, ticks_per_sec: Option<u64>) -> (r: Vec<u64>)
    ensures
        r@.len() == events@.len(),
        forall|i: int|
            0 <= i < events@.len() ==> #[trigger] r@[i] == if display_time(start, events@, ticks_per_sec, i)
                <= u64::MAX {
                display_time(start, events@, ticks_per_sec, i)
            } else {
                u64::MAX as int
            },
{
    let abs = absolute_timestamps(start, events);
    let mut r: Vec<u64> = Vec::new();
    let mut zero_cnt: u64 = 0;
    let mut i: usize = 0;
    while i < events.len()
        invariant
            i <= events@.len(),
            abs@.len() == events@.len(),
            forall|j: int| 0 <= j < events@.len() ==> #[trigger] abs@[j] == absolute_time(start, events@, j),
            r@.len() == i,
            i > 0 ==> zero_cnt == zero_run(events@, i - 1),
            zero_cnt <= i,
            forall|j: int|
                0 <= j < i ==> #[trigger] r@[j] == if display_time(start, events@, ticks_per_sec, j)
                    <= u64::MAX {
                    display_time(start, events@, ticks_per_sec, j)
                } else {
                    u64::MAX as int
                },
        decreases events@.len() - i,
    {
        if i > 0 && events[i].dif_tm() == 0 {
            zero_cnt = zero_cnt + 1;
        } else {
            zero_cnt = 0;
        }
        let ns = ticks_to_ns(abs[i], ticks_per_sec);
        let t = ns as u128 + 10 * zero_cnt as u128;
        let shown = if t <= u64::MAX as u128 {
            t as u64
        } else {
            u64::MAX
        };
        r.push(shown);
        i = i + 1;
    }
    r
}

/// An event as it goes to the trace viewer.
pub enum TraceRecord {
    /// An instant: name and time.
    Point { name: String, timestamp: u64 },
    /// A range: the start's name, the end's name if it had one, start and end time.
    Range { start_name: String, end_name: Option<String>, start: u64, end: u64 },
}

/// Ranges open on one thread, by range ordinal: the local id of the start's
/// name and its time.
pub struct RangeTracker {
    open: Vec<Option<(u8, u64)>>,
}

/// The name of pair `id` of `tags`, if there is such a pair.
pub open spec fn tag_name(tags: Seq<(Seq<char>, EventType)>, id: u8) -> Option<Seq<char>> {
    if (id as int) < tags.len() {
        Some(tags[id as int].0)
    } else {
        None
    }
}

/// A record as values.
pub open spec fn record_view(r: TraceRecord) -> (Seq<char>, Option<Seq<char>>, u64, u64, bool) {
    match r {
        TraceRecord::Point { name, timestamp } => (name@, None, timestamp, timestamp, false),
        TraceRecord::Range { start_name, end_name, start, end } => (
            start_name@,
            match end_name {
                Some(n) => Some(n@),
                None => None,
            },
            start,
            end,
            true,
        ),
    }
}

impl RangeTracker {
    /// Open ranges: ordinal to (start id, start time).
    pub closed spec fn open_ranges(&self) -> Map<u8, (u8, u64)> {
        Map::new(
            |o: u8| self.open@[o as int] is Some,
            |o: u8| self.open@[o as int]->0,
        )
    }

    pub closed spec fn wf(&self) -> bool {
        self.open@.len() == 256
    }

    pub fn new() -> (r: Self)
        ensures
            r.wf(),
            r.open_ranges() == Map::<u8, (u8, u64)>::empty(),
    {
        let mut open: Vec<Option<(u8, u64)>> = Vec::new();
        let mut i: usize = 0;
        while i < 256
            invariant
                i <= 256,
                open@.len() == i,
                forall|j: int| 0 <= j < i ==> open@[j] is None,
            decreases 256 - i,
        {
            open.push(None);
            i = i + 1;
        }
        let r = RangeTracker { open };
        assert(r.open_ranges() =~= Map::<u8, (u8, u64)>::empty());
        r
    }

    /// Handles one decoded event at `time`, with the packet's pair list `tags`.
    ///
    /// An instant gives a point record. A range part whose pair is a range start
    /// opens a range under its ordinal. A named or unnamed range end closes the
    /// range open under its ordinal and gives a range record from that range's
    /// start time to `time`, named after the start (and the end, if named). An
    /// event whose id or ordinal finds nothing gives no record.
    pub fn on_event(&mut self, tags: &IdStoreMap, e: TracingEvent, time: u64) -> (r: Option<TraceRecord>)
        requires
            old(self).wf(),
        ensures
            final(self).wf(),
            e is Instant ==> final(self).open_ranges() == old(self).open_ranges(),
            e is Instant ==> match tag_name(tags@, e->Instant_0) {
                Some(n) => r is Some && record_view(r->0) == (n, None::<Seq<char>>, time, time, false),
                None => r is None,
            },
            e is RangePart ==> ({
                let t = tags@;
                let open = old(self).open_ranges();
                let id = e->RangePart_0;
                let ord = e->RangePart_2;
                if (id as int) < t.len() && t[id as int].1 == EventType::RangeStart {
                    r is None && final(self).open_ranges() == open.insert(ord, (id, time))
                } else if (id as int) < t.len() && t[id as int].1 is RangeEnd && open.contains_key(ord)
                    && tag_name(t, open[ord].0) is Some {
                    &&& r is Some
                    &&& record_view(r->0) == (
                        tag_name(t, open[ord].0)->0,
                        Some(t[id as int].0),
                        open[ord].1,
                        time,
                        true,
                    )
                    &&& final(self).open_ranges() == open.remove(ord)
                } else {
                    r is None && final(self).open_ranges() == open
                }
            }),
            e is UnnamedRangeEnd ==> ({
                let t = tags@;
                let open = old(self).open_ranges();
                let ord = e->UnnamedRangeEnd_1;
                if open.contains_key(ord) && tag_name(t, open[ord].0) is Some {
                    &&& r is Some
                    &&& record_view(r->0) == (
                        tag_name(t, open[ord].0)->0,
                        None::<Seq<char>>,
                        open[ord].1,
                        time,
                        true,
                    )
                    &&& final(self).open_ranges() == open.remove(ord)
                } else {
                    r is None && final(self).open_ranges() == open
                }
            }),
    {
        match e {
            TracingEvent::Instant(id, _) => {
                if (id as usize) < tags.tags.len() {
                    let name = tags.tags[id as usize].0.clone();
                    Some(TraceRecord::Point { name, timestamp: time })
                } else {
                    None
                }
            },
            TracingEvent::RangePart(id, _, ord) => {
                if (id as usize) >= tags.tags.len() {
                    return None;
                }
                match tags.tags[id as usize].1 {
                    EventType::RangeStart => {
                        let ghost old_open = self.open_ranges();
                        self.open.set(ord as usize, Some((id, time)));
                        assert(self.open_ranges() =~= old_open.insert(ord, (id, time)));
                        None
                    },
                    EventType::RangeEnd(_) => {
                        let end_name = tags.tags[id as usize].0.clone();
                        self.close(tags, ord, time, Some(end_name))
                    },
                    EventType::Instant => None,
                }
            },
            TracingEvent::UnnamedRangeEnd(_, ord) => self.close(tags, ord, time, None),
        }
    }

    fn close(&mut self, tags: &IdStoreMap, ord: u8, time: u64, end_name: Option<String>) -> (r: Option<TraceRecord>)
        requires
            old(self).wf(),
        ensures
            final(self).wf(),
            ({
                let t = tags@;
                let open = old(self).open_ranges();
                if open.contains_key(ord) && tag_name(t, open[ord].0) is Some {
                    &&& r is Some
                    &&& record_view(r->0) == (tag_name(t, open[ord].0)->0, match end_name {
                        Some(n) => Some(n@),
                        None => None,
                    }, open[ord].1, time, true)
                    &&& final(self).open_ranges() == open.remove(ord)
                } else {
                    r is None && final(self).open_ranges() == open
                }
            }),
    {
        match self.open[ord as usize] {
            Some((start_id, start_tm)) => {
                if (start_id as usize) < tags.tags.len() {
                    let start_name = tags.tags[start_id as usize].0.clone();
                    let ghost old_open = self.open_ranges();
                    self.open.set(ord as usize, None);
                    assert(self.open_ranges() =~= old_open.remove(ord));
                    Some(TraceRecord::Range { start_name, end_name, start: start_tm, end: time })
                } else {
                    None
                }
            },
            None => None,
        }
    }
}

} // verus!
