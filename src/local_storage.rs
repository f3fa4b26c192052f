//! The per-thread recorder: interns names, delta-encodes timestamps, appends
//! frames to the payload buffer and cuts packets.
//!
//! The caller reads the timestamp and hands it in; a cut packet is handed back
//! for the caller to push into the global store.
use vstd::prelude::*;
use crate::config::LocalStorageConfig;
use crate::frame::{append_frame, frames_of, TracingEvent};
use crate::headers::{LocalPacketHeader, ThreadInfo};
use crate::id_mapping::{lookup_key, EventType, IdStoreRepr};

verus! {

/// 2^64, the modulus of timestamps.
pub open spec fn tm_modulus() -> int {
    0x1_0000_0000_0000_0000
}

/// The delta written for an event at `now`: 0 for the first event of a packet
/// (`first`), else the wrapping difference from the previous event.
pub open spec fn next_dif(first: bool, prev: u64, now: u64) -> u64 {
    if first {
        0
    } else {
        vstd::wrapping::u64_specs::wrapping_sub(now, prev)
    }
}

/// Start timestamp of the packet after an event at `now` (`first`: the packet was empty).
pub open spec fn next_start(first: bool, start: u64, now: u64) -> u64 {
    if first {
        now
    } else {
        start
    }
}

/// Sum of the deltas of a sequence of events.
pub open spec fn sum_difs(es: Seq<TracingEvent>) -> int
    decreases es.len(),
{
    if es.len() == 0 {
        0
    } else {
        sum_difs(es.drop_last()) + es.last().dif() as int
    }
}

/// Thread information as values: OS thread id and the pending new name.
pub open spec fn info_view(t: Option<ThreadInfo>) -> Option<(u64, Option<Seq<char>>)> {
    match t {
        Some(i) => Some(
            (
                i.thread_id,
                match i.new_thread_name {
                    Some(n) => Some(n@),
                    None => None,
                },
            ),
        ),
        None => None,
    }
}

/// The same thread information with the pending name cleared.
pub open spec fn info_cleared(t: Option<(u64, Option<Seq<char>>)>) -> Option<(u64, Option<Seq<char>>)> {
    match t {
        Some(i) => Some((i.0, None)),
        None => None,
    }
}

/// The same thread information with the pending name set to `n`.
pub open spec fn info_renamed(t: Option<(u64, Option<Seq<char>>)>, n: Seq<char>) -> Option<
    (u64, Option<Seq<char>>),
> {
    match t {
        Some(i) => Some((i.0, Some(n))),
        None => None,
    }
}

/// The dictionary after interning `key`: unchanged if present, else `key` gets id `len`.
pub open spec fn interned(ids: Map<u32, u8>, len: int, key: u32) -> Map<u32, u8> {
    if ids.contains_key(key) {
        ids
    } else {
        ids.insert(key, len as u8)
    }
}

/// The pair list after interning `key` with `(name, kind)`.
pub open spec fn interned_tags(
    tags: Seq<(Seq<char>, EventType)>,
    ids: Map<u32, u8>,
    key: u32,
    name: Seq<char>,
    kind: EventType,
) -> Seq<(Seq<char>, EventType)> {
    if ids.contains_key(key) {
        tags
    } else {
        tags.push((name, kind))
    }
}

/// The event recorded for local id `id` (none for an unnamed range end) and range
/// ordinal `ord` (none for an instant) with delta `dif`.
pub open spec fn make_event(id: Option<u8>, ord: Option<u8>, dif: u64) -> TracingEvent {
    match ord {
        None => TracingEvent::Instant(
            match id {
                Some(i) => i,
                None => 0,
            },
            dif,
        ),
        Some(o) => match id {
            Some(i) => TracingEvent::RangePart(i, dif, o),
            None => TracingEvent::UnnamedRangeEnd(dif, o),
        },
    }
}

/// The local id an event refers to is below `n` (an unnamed range end refers to none).
pub open spec fn id_below(e: TracingEvent, n: int) -> bool {
    match e {
        TracingEvent::Instant(id, _) => (id as int) < n,
        TracingEvent::RangePart(id, _, _) => (id as int) < n,
        TracingEvent::UnnamedRangeEnd(_, _) => true,
    }
}

/// A packet is cut once the payload reaches the hard threshold, or the soft one
/// while the global store is available (not being drained).
pub open spec fn flush_due(len: int, config: LocalStorageConfig, store_available: bool) -> bool {
    len >= config.flush_threshold || (store_available && len >= config.flush_attempt_threshold)
}

/// A packet `(header, payload)` holds exactly these events, timestamps, pairs and thread data.
pub open spec fn is_packet(
    p: (LocalPacketHeader, Vec<u8>),
    events: Seq<TracingEvent>,
    start: u64,
    end: u64,
    tags: Seq<(Seq<char>, EventType)>,
    thread_ord_id: u64,
    info: Option<(u64, Option<Seq<char>>)>,
) -> bool {
    &&& p.1@ == frames_of(events)
    &&& p.0.start_timestamp == start
    &&& p.0.end_timestamp == end
    &&& p.0.id_store@ == tags
    &&& p.0.thread_ord_id == thread_ord_id
    &&& info_view(p.0.thread_info) == info
}

/// Destination of the packets a recorder cuts.
pub trait GlobalStorageImpl {
    fn flush(&mut self, header: &LocalPacketHeader, data: Vec<u8>);
}

/// Identifies a started range: the local id of its name and its ordinal.
#[derive(Clone, Copy)]
pub struct RangeStartRepr {
    range_start_id: u8,
    range_ord_id: u8,
}

impl RangeStartRepr {
    pub closed spec fn start_id(self) -> u8 {
        self.range_start_id
    }

    pub closed spec fn ord_id(self) -> u8 {
        self.range_ord_id
    }

    /// The local id of the range's name.
    pub fn range_start_id(&self) -> (r: u8)
        ensures
            r == self.start_id(),
    {
        self.range_start_id
    }

    /// The range's ordinal.
    pub fn range_ord_id(&self) -> (r: u8)
        ensures
            r == self.ord_id(),
    {
        self.range_ord_id
    }
}

/// Recorder of one thread.
pub struct LocalStorage {
    config: LocalStorageConfig,
    prev_tm: u64,
    buf: Vec<u8>,
    id_store: IdStoreRepr,
    local_packet_header: LocalPacketHeader,
    last_range_ord_id: u8,
    /// The events of the current packet, in order.
    events: Ghost<Seq<TracingEvent>>,
    /// The timestamp each of those events was recorded at.
    times: Ghost<Seq<u64>>,
}

impl LocalStorage {
    /// Events of the packet being filled.
    pub closed spec fn events(&self) -> Seq<TracingEvent> {
        self.events@
    }

    /// Timestamps the events of the packet were recorded at.
    pub closed spec fn times(&self) -> Seq<u64> {
        self.times@
    }

    /// The payload bytes of the packet being filled.
    pub closed spec fn payload(&self) -> Seq<u8> {
        self.buf@
    }

    /// Timestamp of the packet's first event, 0 while it is empty.
    pub closed spec fn start_tm(&self) -> u64 {
        self.local_packet_header.start_timestamp
    }

    /// Timestamp of the last recorded event.
    pub closed spec fn prev_tm(&self) -> u64 {
        self.prev_tm
    }

    pub closed spec fn ids(&self) -> Map<u32, u8> {
        self.id_store.ids()
    }

    pub closed spec fn tags(&self) -> Seq<(Seq<char>, EventType)> {
        self.id_store.tags()
    }

    /// The ordinal the next range will get.
    pub closed spec fn next_ord(&self) -> u8 {
        self.last_range_ord_id
    }

    pub closed spec fn config(&self) -> LocalStorageConfig {
        self.config
    }

    pub closed spec fn thread_ord_id(&self) -> u64 {
        self.local_packet_header.thread_ord_id
    }

    pub closed spec fn thread_info(&self) -> Option<(u64, Option<Seq<char>>)> {
        info_view(self.local_packet_header.thread_info)
    }

    pub closed spec fn wf(&self) -> bool {
        &&& self.id_store.wf()
        &&& self.buf@ == frames_of(self.events@)
        &&& self.events@.len() == 0 ==> self.local_packet_header.start_timestamp == 0
        &&& self.events@.len() > 0 ==> self.events@[0].dif() == 0
        &&& self.events@.len() > 0 ==> (self.local_packet_header.start_timestamp + sum_difs(
            self.events@.drop_first(),
        )) % tm_modulus() == self.prev_tm
        &&& self.times@.len() == self.events@.len()
        &&& self.events@.len() > 0 ==> self.times@[self.events@.len() - 1] == self.prev_tm
        &&& forall|i: int| 0 <= i < self.events@.len() ==> id_below(#[trigger] self.events@[i], self.id_store.tags().len() as int)
        &&& self.events@.len() > 0 ==> self.local_packet_header.start_timestamp == self.times@[0]
        &&& self.events@.len() > 0 ==> forall|i: int|
            0 <= i < self.events@.len() ==> (self.local_packet_header.start_timestamp + sum_difs(
                #[trigger] self.events@.subrange(1, i + 1),
            )) % tm_modulus() == self.times@[i]
    }

    /// A recorder with an empty packet, no names and range ordinals from 0.
    pub fn new(thread_ord_id: u64, thread_info: Option<ThreadInfo>, config: LocalStorageConfig) -> (r:
        Self)
        ensures
            r.wf(),
            r.events() == Seq::<TracingEvent>::empty(),
            r.start_tm() == 0,
            r.prev_tm() == 0,
            r.ids() == Map::<u32, u8>::empty(),
            r.tags() == Seq::<(Seq<char>, EventType)>::empty(),
            r.next_ord() == 0,
            r.config() == config,
            r.thread_ord_id() == thread_ord_id,
            r.thread_info() == info_view(thread_info),
    {
        LocalStorage {
            config,
            buf: Vec::new(),
            prev_tm: 0,
            id_store: IdStoreRepr::new(),
            local_packet_header: LocalPacketHeader {
                thread_ord_id,
                thread_info,
                start_timestamp: 0,
                end_timestamp: 0,
                id_store: crate::id_mapping::IdStoreMap::new(),
            },
            last_range_ord_id: 0,
            events: Ghost(Seq::empty()),
            times: Ghost(Seq::empty()),
        }
    }

    /// Takes the next range ordinal (post-increment, wrapping).
    fn new_range_ord_id(&mut self) -> (r: u8)
        ensures
            r == old(self).next_ord(),
            final(self).next_ord() == vstd::wrapping::u8_specs::wrapping_add(old(self).next_ord(), 1),
            final(self).events() == old(self).events(),
            final(self).times() == old(self).times(),
            final(self).payload() == old(self).payload(),
            final(self).start_tm() == old(self).start_tm(),
            final(self).prev_tm() == old(self).prev_tm(),
            final(self).ids() == old(self).ids(),
            final(self).tags() == old(self).tags(),
            final(self).config() == old(self).config(),
            final(self).thread_ord_id() == old(self).thread_ord_id(),
            final(self).thread_info() == old(self).thread_info(),
            old(self).wf() ==> final(self).wf(),
    {
        let range_ord_id = self.last_range_ord_id;
        self.last_range_ord_id = self.last_range_ord_id.wrapping_add(1);
        range_ord_id
    }

    /// Updates the previous and start timestamps for an event at `timestamp` and
    /// returns its delta.
    fn update_local_info(&mut self, timestamp: u64) -> (r: u64)
        requires
            old(self).wf(),
        ensures
            r == next_dif(old(self).events().len() == 0, old(self).prev_tm(), timestamp),
            final(self).prev_tm() == timestamp,
            final(self).start_tm() == next_start(old(self).events().len() == 0, old(self).start_tm(), timestamp),
            final(self).buf == old(self).buf,
            final(self).events == old(self).events,
            final(self).times == old(self).times,
            final(self).id_store == old(self).id_store,
            final(self).config == old(self).config,
            final(self).last_range_ord_id == old(self).last_range_ord_id,
            final(self).local_packet_header.thread_ord_id == old(
                self,
            ).local_packet_header.thread_ord_id,
            final(self).local_packet_header.thread_info == old(self).local_packet_header.thread_info,
    {
        proof {
            if self.events@.len() > 0 {
                crate::frame::lemma_frames_of_head(self.events@);
            } else {
                assert(frames_of(self.events@) =~= Seq::<u8>::empty());
            }
        }
        let mut dif_tm = timestamp.wrapping_sub(self.prev_tm);
        self.prev_tm = timestamp;
        if self.buf.len() == 0 {
            self.local_packet_header.start_timestamp = timestamp;
            dif_tm = 0;
        }
        dif_tm
    }

    /// Records an event at `timestamp` (see `make_event`): the delta follows from
    /// the previous event, the frame goes to the payload.
    fn push_event(&mut self, id: Option<u8>, ord: Option<u8>, timestamp: u64)
        requires
            old(self).wf(),
            id is Some ==> (id->0 as int) < old(self).tags().len(),
            ord is None ==> id is Some,
        ensures
            final(self).wf(),
            final(self).events() == old(self).events().push(
                make_event(id, ord, next_dif(old(self).events().len() == 0, old(self).prev_tm(), timestamp)),
            ),
            final(self).times() == old(self).times().push(timestamp),
            final(self).prev_tm() == timestamp,
            final(self).start_tm() == next_start(old(self).events().len() == 0, old(self).start_tm(), timestamp),
            final(self).ids() == old(self).ids(),
            final(self).tags() == old(self).tags(),
            final(self).next_ord() == old(self).next_ord(),
            final(self).config() == old(self).config(),
            final(self).thread_ord_id() == old(self).thread_ord_id(),
            final(self).thread_info() == old(self).thread_info(),
    {
        let ghost old_events = self.events@;
        let ghost old_start = self.local_packet_header.start_timestamp;
        let ghost old_prev = self.prev_tm;
        let dif = self.update_local_info(timestamp);
        let e = match ord {
            None => TracingEvent::Instant(
                match id {
                    Some(i) => i,
                    None => 0,
                },
                dif,
            ),
            Some(o) => match id {
                Some(i) => TracingEvent::RangePart(i, dif, o),
                None => TracingEvent::UnnamedRangeEnd(dif, o),
            },
        };
        append_frame(&mut self.buf, e);
        self.events = Ghost(old_events.push(e));
        let ghost old_times = self.times@;
        self.times = Ghost(old_times.push(timestamp));
        proof {
            let all = old_events.push(e);
            lemma_times_after_push(old_events, old_times, e, timestamp, old_start, old_prev);
            assert forall|i: int| 0 <= i < all.len() implies id_below(#[trigger] all[i], self.id_store.tags().len() as int) by {
                if i < old_events.len() {
                    assert(all[i] == old_events[i]);
                }
            }
            assert(all.drop_last() =~= old_events);
            if old_events.len() > 0 {
                assert(all.drop_first() =~= old_events.drop_first().push(e));
                assert(all.drop_first().drop_last() =~= old_events.drop_first());
                assert(sum_difs(all.drop_first()) == sum_difs(old_events.drop_first()) + e.dif());
                {
                    let s = old_start + sum_difs(old_events.drop_first());
                    let m = tm_modulus();
                    assert(s % m == old_prev);
                    vstd::arithmetic::div_mod::lemma_add_mod_noop(s, e.dif() as int, m);
                    vstd::arithmetic::div_mod::lemma_add_mod_noop(old_prev as int, e.dif() as int, m);
                    assert((s + e.dif()) % m == (old_prev + e.dif()) % m) by {
                        vstd::arithmetic::div_mod::lemma_mod_twice(s, m);
                        vstd::arithmetic::div_mod::lemma_small_mod(e.dif() as nat, m as nat);
                    }
                }
            } else {
                assert(all.drop_first() =~= Seq::<TracingEvent>::empty());
            }
        }
    }

    /// Checks the payload length and cuts a packet if a flush is due (see `flush_due`).
    pub fn auto_flush(&mut self, store_available: bool) -> (r: Option<(LocalPacketHeader, Vec<u8>)>)
        requires
            old(self).wf(),
        ensures
            final(self).wf(),
            flush_due(old(self).payload().len() as int, old(self).config(), store_available) ==> final(self).flushed(
                *old(self),
                r,
            ),
            !flush_due(old(self).payload().len() as int, old(self).config(), store_available) ==> r is None,
            !flush_due(old(self).payload().len() as int, old(self).config(), store_available) ==> *final(self) == *old(self),
    {
        if self.buf.len() >= self.config.flush_threshold || (store_available && self.buf.len()
            >= self.config.flush_attempt_threshold) {
            self.flush(false)
        } else {
            None
        }
    }

    /// `self` is `before` after a flush that returned `r`: a non-empty packet went
    /// out whole and the recorder starts a new one; an empty one changes nothing.
    pub open spec fn flushed(&self, before: LocalStorage, r: Option<(LocalPacketHeader, Vec<u8>)>) -> bool {
        if before.events().len() == 0 {
            r is None && *self == before
        } else {
            &&& r is Some
            &&& is_packet(
                r->0,
                before.events(),
                before.start_tm(),
                before.prev_tm(),
                before.tags(),
                before.thread_ord_id(),
                before.thread_info(),
            )
            &&& self.events() == Seq::<TracingEvent>::empty()
            &&& self.times() == Seq::<u64>::empty()
            &&& self.start_tm() == 0
            &&& self.prev_tm() == before.prev_tm()
            &&& self.ids() == before.ids()
            &&& self.tags() == before.tags()
            &&& self.next_ord() == before.next_ord()
            &&& self.config() == before.config()
            &&& self.thread_ord_id() == before.thread_ord_id()
            &&& self.thread_info() == info_cleared(before.thread_info())
        }
    }

    /// Cuts the current packet: if any event was recorded, returns the header
    /// (start and end timestamps, a snapshot of the pair list, the thread data)
    /// with the payload, and starts an empty packet; a pending thread name is
    /// sent once. With nothing recorded it does nothing.
    pub fn flush(&mut self, finalize: bool) -> (r: Option<(LocalPacketHeader, Vec<u8>)>)
        requires
            old(self).wf(),
        ensures
            final(self).wf(),
            final(self).flushed(*old(self), r),
    {
        if self.buf.len() == 0 {
            proof {
                if self.events@.len() > 0 {
                    crate::frame::lemma_frames_of_head(self.events@);
                }
            }
            return None;
        }
        proof {
            if self.events@.len() == 0 {
                assert(frames_of(self.events@) =~= Seq::<u8>::empty());
            }
        }
        let mut data: Vec<u8> = Vec::new();
        std::mem::swap(&mut data, &mut self.buf);
        let info = clone_thread_info(&self.local_packet_header.thread_info);
        let header = LocalPacketHeader {
            thread_ord_id: self.local_packet_header.thread_ord_id,
            thread_info: info,
            start_timestamp: self.local_packet_header.start_timestamp,
            end_timestamp: self.prev_tm,
            id_store: self.id_store.tags_snapshot(),
        };
        match &mut self.local_packet_header.thread_info {
            Some(thread_info) => {
                thread_info.new_thread_name = None;
            },
            None => {},
        }
        self.local_packet_header.start_timestamp = 0;
        self.events = Ghost(Seq::empty());
        self.times = Ghost(Seq::empty());
        assert(self.buf@ =~= frames_of(Seq::<TracingEvent>::empty()));
        Some((header, data))
    }

    /// Whether an event of `(hash, kind)` can be recorded: its name has an id
    /// already, or the dictionary has room for one more.
    pub fn can_record(&self, hash: u32, kind: EventType) -> (r: bool)
        requires
            self.wf(),
        ensures
            r == (self.ids().contains_key(lookup_key(hash, kind)) || self.tags().len() < 256),
    {
        self.id_store.can_intern(hash, kind)
    }

    /// Cuts the current packet (see `flush`) and hands it to `global`, if there is one.
    pub fn flush_to<G: GlobalStorageImpl>(&mut self, global: &mut G, finalize: bool)
        requires
            old(self).wf(),
        ensures
            final(self).wf(),
            final(self).events() == Seq::<TracingEvent>::empty(),
            final(self).ids() == old(self).ids(),
            final(self).tags() == old(self).tags(),
            final(self).next_ord() == old(self).next_ord(),
    {
        match self.flush(finalize) {
            Some((header, data)) => global.flush(&header, data),
            None => {},
        }
    }

    /// Records an instant event named `string` at `timestamp`, then cuts the
    /// packet if a flush is due (see `flush_due`).
    pub fn event_instant(&mut self, hash: u32, string: &str, timestamp: u64, store_available: bool) -> (r: Option<
        (LocalPacketHeader, Vec<u8>),
    >)
        requires
            old(self).wf(),
            old(self).ids().contains_key(lookup_key(hash, EventType::Instant)) || old(
                self,
            ).tags().len() < 256,
        ensures
            final(self).wf(),
            ({
                let key = lookup_key(hash, EventType::Instant);
                let ids = interned(old(self).ids(), old(self).tags().len() as int, key);
                let e = TracingEvent::Instant(
                    ids[key],
                    next_dif(old(self).events().len() == 0, old(self).prev_tm(), timestamp),
                );
                final(self).recorded(*old(self), r, ids, interned_tags(old(self).tags(), old(self).ids(), key, string@, EventType::Instant), e, timestamp, store_available)
            }),
    {
        let id = self.id_store.insert_and_get_id(hash, string, EventType::Instant);
        self.event(id, timestamp, store_available)
    }

    /// `self` is `before` after recording `e` at `now` with the dictionary
    /// becoming `ids`/`tags`, and then an automatic flush that returned `r`
    /// (`store_available`: whether the global store was free).
    pub open spec fn recorded(
        &self,
        before: LocalStorage,
        r: Option<(LocalPacketHeader, Vec<u8>)>,
        ids: Map<u32, u8>,
        tags: Seq<(Seq<char>, EventType)>,
        e: TracingEvent,
        now: u64,
        store_available: bool,
    ) -> bool {
        let all = before.events().push(e);
        let start = next_start(before.events().len() == 0, before.start_tm(), now);
        &&& self.ids() == ids
        &&& self.tags() == tags
        &&& self.prev_tm() == now
        &&& self.config() == before.config()
        &&& self.thread_ord_id() == before.thread_ord_id()
        &&& if flush_due(frames_of(all).len() as int, before.config(), store_available) {
            &&& r is Some
            &&& is_packet(
                r->0,
                all,
                start,
                now,
                tags,
                before.thread_ord_id(),
                before.thread_info(),
            )
            &&& self.events() == Seq::<TracingEvent>::empty()
            &&& self.times() == Seq::<u64>::empty()
            &&& self.start_tm() == 0
            &&& self.thread_info() == info_cleared(before.thread_info())
        } else {
            &&& r is None
            &&& self.events() == all
            &&& self.times() == before.times().push(now)
            &&& self.start_tm() == start
            &&& self.thread_info() == before.thread_info()
        }
    }

    /// Starts a range named `name` at `timestamp`: takes the next range ordinal,
    /// interns `(hash, RangeStart)` and records a range frame; then cuts the
    /// packet if a flush is due. Returns the range's id and ordinal.
    pub fn event_range_start(&mut self, hash: u32, name: &str, timestamp: u64, store_available: bool) -> (r: (
        RangeStartRepr,
        Option<(LocalPacketHeader, Vec<u8>)>,
    ))
        requires
            old(self).wf(),
            old(self).ids().contains_key(lookup_key(hash, EventType::RangeStart)) || old(
                self,
            ).tags().len() < 256,
        ensures
            final(self).wf(),
            r.0.ord_id() == old(self).next_ord(),
            final(self).next_ord() == vstd::wrapping::u8_specs::wrapping_add(old(self).next_ord(), 1),
            ({
                let key = lookup_key(hash, EventType::RangeStart);
                let ids = interned(old(self).ids(), old(self).tags().len() as int, key);
                &&& r.0.start_id() == ids[key]
                &&& final(self).recorded(
                    *old(self),
                    r.1,
                    ids,
                    interned_tags(old(self).tags(), old(self).ids(), key, name@, EventType::RangeStart),
                    TracingEvent::RangePart(
                        ids[key],
                        next_dif(old(self).events().len() == 0, old(self).prev_tm(), timestamp),
                        old(self).next_ord(),
                    ),
                    timestamp,
                    store_available,
                )
            }),
    {
        let range_ord_id = self.new_range_ord_id();
        let start_id = self.id_store.insert_and_get_id(hash, name, EventType::RangeStart);
        let packet = self.range_event(Some(start_id), range_ord_id, timestamp, store_available);
        (RangeStartRepr { range_ord_id, range_start_id: start_id }, packet)
    }

    /// Ends a range at `timestamp`. With a name (`hash != 0`) it interns
    /// `(hash, RangeEnd(start id))` and records a named range frame; without one
    /// it records an unnamed end (id byte 0, flag 0xC0). Either frame carries the
    /// range's ordinal. Then cuts the packet if a flush is due.
    pub fn event_range_end(&mut self, range_start: RangeStartRepr, hash: u32, name: &str, timestamp: u64, store_available: bool) -> (r:
        Option<(LocalPacketHeader, Vec<u8>)>)
        requires
            old(self).wf(),
            hash != 0 ==> old(self).ids().contains_key(
                lookup_key(hash, EventType::RangeEnd(range_start.start_id())),
            ) || old(self).tags().len() < 256,
        ensures
            final(self).wf(),
            final(self).next_ord() == old(self).next_ord(),
            hash != 0 ==> ({
                let kind = EventType::RangeEnd(range_start.start_id());
                let key = lookup_key(hash, kind);
                let ids = interned(old(self).ids(), old(self).tags().len() as int, key);
                final(self).recorded(
                    *old(self),
                    r,
                    ids,
                    interned_tags(old(self).tags(), old(self).ids(), key, name@, kind),
                    TracingEvent::RangePart(
                        ids[key],
                        next_dif(old(self).events().len() == 0, old(self).prev_tm(), timestamp),
                        range_start.ord_id(),
                    ),
                    timestamp,
                    store_available,
                )
            }),
            hash == 0 ==> final(self).recorded(
                *old(self),
                r,
                old(self).ids(),
                old(self).tags(),
                TracingEvent::UnnamedRangeEnd(
                    next_dif(old(self).events().len() == 0, old(self).prev_tm(), timestamp),
                    range_start.ord_id(),
                ),
                timestamp,
                store_available,
            ),
    {
        let range_ord_id = range_start.range_ord_id;
        let start_id = range_start.range_start_id;
        if hash != 0 {
            let end_id = self.id_store.insert_and_get_id(hash, name, EventType::RangeEnd(start_id));
            self.range_event(Some(end_id), range_ord_id, timestamp, store_available)
        } else {
            self.range_event(None, range_ord_id, timestamp, store_available)
        }
    }

    fn range_event(&mut self, id: Option<u8>, range_ord_id: u8, timestamp: u64, store_available: bool) -> (r: Option<
        (LocalPacketHeader, Vec<u8>),
    >)
        requires
            old(self).wf(),
            id is Some ==> (id->0 as int) < old(self).tags().len(),
        ensures
            final(self).wf(),
            final(self).recorded(
                *old(self),
                r,
                old(self).ids(),
                old(self).tags(),
                make_event(
                    id,
                    Some(range_ord_id),
                    next_dif(old(self).events().len() == 0, old(self).prev_tm(), timestamp),
                ),
                timestamp,
                store_available,
            ),
            final(self).next_ord() == old(self).next_ord(),
    {
        self.push_event(id, Some(range_ord_id), timestamp);
        self.auto_flush(store_available)
    }

    /// Sets the name to announce in the next packet header (if the recorder has
    /// thread information).
    pub fn set_cur_thread_name(&mut self, name: String)
        ensures
            final(self).thread_info() == info_renamed(old(self).thread_info(), name@),
            final(self).events() == old(self).events(),
            final(self).times() == old(self).times(),
            final(self).payload() == old(self).payload(),
            final(self).start_tm() == old(self).start_tm(),
            final(self).prev_tm() == old(self).prev_tm(),
            final(self).ids() == old(self).ids(),
            final(self).tags() == old(self).tags(),
            final(self).next_ord() == old(self).next_ord(),
            final(self).config() == old(self).config(),
            final(self).thread_ord_id() == old(self).thread_ord_id(),
            old(self).wf() ==> final(self).wf(),
    {
        match &mut self.local_packet_header.thread_info {
            Some(thread_info) => {
                thread_info.new_thread_name = Some(name);
            },
            None => {},
        }
    }

    /// Every local id the packet's events refer to indexes the dictionary that
    /// goes out in the packet's header.
    pub proof fn lemma_ids_in_store(&self)
        requires
            self.wf(),
        ensures
            forall|i: int| 0 <= i < self.events().len() ==> id_below(#[trigger] self.events()[i], self.tags().len() as int),
    {
    }

    /// The last event was recorded at the previous timestamp; an empty packet
    /// has no events.
    pub proof fn lemma_last_time(&self)
        requires
            self.wf(),
        ensures
            self.events().len() > 0 ==> self.times()[self.events().len() - 1] == self.prev_tm(),
            self.events().len() == 0 <==> self.payload().len() == 0,
    {
        if self.events@.len() > 0 {
            crate::frame::lemma_frames_of_head(self.events@);
        } else {
            assert(frames_of(self.events@) =~= Seq::<u8>::empty());
        }
    }

    /// The payload holds exactly the frames of the recorded events.
    pub proof fn lemma_payload_frames(&self)
        requires
            self.wf(),
        ensures
            self.payload() == frames_of(self.events()),
    {
    }

    /// Each event of the packet being filled was recorded at the packet's start
    /// timestamp plus the deltas of the events after the first, up to and
    /// including it (modulo 2^64).
    pub proof fn lemma_delta_reconstruction(&self)
        requires
            self.wf(),
            self.events().len() > 0,
        ensures
            self.start_tm() == self.times()[0],
            self.events()[0].dif() == 0,
            forall|i: int|
                0 <= i < self.events().len() ==> (self.start_tm() + sum_difs(
                    #[trigger] self.events().subrange(1, i + 1),
                )) % tm_modulus() == self.times()[i],
    {
    }

    fn event(&mut self, id: u8, timestamp: u64, store_available: bool) -> (r: Option<(LocalPacketHeader, Vec<u8>)>)
        requires
            old(self).wf(),
            (id as int) < old(self).tags().len(),
        ensures
            final(self).wf(),
            final(self).recorded(
                *old(self),
                r,
                old(self).ids(),
                old(self).tags(),
                TracingEvent::Instant(
                    id,
                    next_dif(old(self).events().len() == 0, old(self).prev_tm(), timestamp),
                ),
                timestamp,
                store_available,
            ),
            final(self).next_ord() == old(self).next_ord(),
    {
        self.push_event(Some(id), None, timestamp);
        self.auto_flush(store_available)
    }
}

/// Appending an event recorded at `now` keeps every event's timestamp equal to
/// the packet start plus the deltas up to it.
proof fn lemma_times_after_push(
    events: Seq<TracingEvent>,
    times: Seq<u64>,
    e: TracingEvent,
    now: u64,
    start: u64,
    prev: u64,
)
    requires
        times.len() == events.len(),
        e.dif() == next_dif(events.len() == 0, prev, now),
        events.len() > 0 ==> (start + sum_difs(events.drop_first())) % tm_modulus() == prev,
        events.len() > 0 ==> start == times[0],
        events.len() > 0 ==> forall|i: int|
            0 <= i < events.len() ==> (start + sum_difs(#[trigger] events.subrange(1, i + 1)))
                % tm_modulus() == times[i],
    ensures
        ({
            let es = events.push(e);
            let ts = times.push(now);
            let st = next_start(events.len() == 0, start, now);
            st == ts[0] && forall|i: int|
                0 <= i < es.len() ==> (st + sum_difs(#[trigger] es.subrange(1, i + 1))) % tm_modulus()
                    == ts[i]
        }),
{
    let es = events.push(e);
    let ts = times.push(now);
    let st = next_start(events.len() == 0, start, now);
    if events.len() == 0 {
        assert(es.subrange(1, 1) =~= Seq::<TracingEvent>::empty());
        assert forall|i: int| 0 <= i < es.len() implies (st + sum_difs(
            #[trigger] es.subrange(1, i + 1),
        )) % tm_modulus() == ts[i] by {
            assert(i == 0);
            vstd::arithmetic::div_mod::lemma_small_mod(now as nat, tm_modulus() as nat);
        }
    } else {
        assert forall|i: int| 0 <= i < es.len() implies (st + sum_difs(
            #[trigger] es.subrange(1, i + 1),
        )) % tm_modulus() == ts[i] by {
            if i < events.len() {
                assert(es.subrange(1, i + 1) =~= events.subrange(1, i + 1));
            } else {
                assert(es.subrange(1, i + 1) =~= es.drop_first());
                assert(es.drop_first().drop_last() =~= events.drop_first());
                let s = start + sum_difs(events.drop_first());
                let m = tm_modulus();
                vstd::arithmetic::div_mod::lemma_add_mod_noop(s, e.dif() as int, m);
                vstd::arithmetic::div_mod::lemma_add_mod_noop(prev as int, e.dif() as int, m);
                vstd::arithmetic::div_mod::lemma_mod_twice(s, m);
                vstd::arithmetic::div_mod::lemma_small_mod(e.dif() as nat, m as nat);
            }
        }
    }
}

/// A copy of the thread information.
fn clone_thread_info(t: &Option<ThreadInfo>) -> (r: Option<ThreadInfo>)
    ensures
        info_view(r) == info_view(*t),
{
    match t {
        Some(i) => {
            let name = match &i.new_thread_name {
                Some(n) => Some(n.clone()),
                None => None,
            };
            Some(ThreadInfo { thread_id: i.thread_id, new_thread_name: name })
        },
        None => None,
    }
}

} // verus!
