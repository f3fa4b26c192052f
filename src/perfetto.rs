//! The trace handed to the viewer: a process track, one track per thread, and
//! point and slice events on those tracks.
use vstd::prelude::*;

verus! {

/// Relies on `rand::random`: any value may come back.
pub assume_specification<T>[ rand::random::<T> ]() -> (r: T)
    where
        rand::distributions::Standard: rand::distributions::Distribution<T>,
;

/// Kind of a track event.
#[derive(Clone, Copy, Debug, PartialEq, Eq, Structural)]
pub enum TrackEventType {
    SliceBegin,
    SliceEnd,
    Instant,
}

/// One event on a track: its kind, name (slice ends have none), track and time.
pub struct TracePacket {
    pub event_type: TrackEventType,
    pub name: Option<String>,
    pub track_uuid: u64,
    pub timestamp: u64,
    pub sequence_id: u32,
}

/// A thread's track.
pub struct ThreadDescriptor {
    pub thread_id: u64,
    pub uuid: u64,
    pub parent_uuid: u64,
    pub pid: i32,
    pub thread_name: String,
}

/// A packet as values: kind, name, track, time.
pub open spec fn packet_view(p: TracePacket) -> (TrackEventType, Option<Seq<char>>, u64, u64) {
    (
        p.event_type,
        match p.name {
            Some(n) => Some(n@),
            None => None,
        },
        p.track_uuid,
        p.timestamp,
    )
}

pub struct PerfettoTraceFile {
    packets: Vec<TracePacket>,
    process_name: String,
    proc_uuid: u64,
    thread_descriptors: Vec<ThreadDescriptor>,
    sequence_id: u32,
    pid: i32,
}

impl PerfettoTraceFile {
    /// The events added so far, in order.
    pub closed spec fn packets(&self) -> Seq<(TrackEventType, Option<Seq<char>>, u64, u64)> {
        self.packets@.map_values(|p: TracePacket| packet_view(p))
    }

    /// Track of each thread that has one.
    pub closed spec fn tracks(&self) -> Map<u64, u64> {
        Map::new(
            |t: u64| exists|i: int| 0 <= i < self.thread_descriptors@.len() && self.thread_descriptors@[i].thread_id == t,
            |t: u64| self.thread_descriptors@[choose|i: int| 0 <= i < self.thread_descriptors@.len() && self.thread_descriptors@[i].thread_id == t].uuid,
        )
    }

    /// Name given to each thread's track.
    pub closed spec fn thread_names(&self) -> Map<u64, Seq<char>> {
        Map::new(
            |t: u64| exists|i: int| 0 <= i < self.thread_descriptors@.len() && self.thread_descriptors@[i].thread_id == t,
            |t: u64| self.thread_descriptors@[choose|i: int| 0 <= i < self.thread_descriptors@.len() && self.thread_descriptors@[i].thread_id == t].thread_name@,
        )
    }

    pub closed spec fn wf(&self) -> bool {
        forall|i: int, j: int|
            0 <= i < self.thread_descriptors@.len() && 0 <= j < self.thread_descriptors@.len()
                && #[trigger] self.thread_descriptors@[i].thread_id == #[trigger] self.thread_descriptors@[j].thread_id
                ==> i == j
    }

    /// Thread tracks, in order of creation: thread id, track id, parent track
    /// id and pid.
    pub closed spec fn thread_list(&self) -> Seq<(u64, u64, u64, i32)> {
        self.thread_descriptors@.map_values(|d: ThreadDescriptor| (d.thread_id, d.uuid, d.parent_uuid, d.pid))
    }

    /// The sequence id every event of this trace carries.
    pub closed spec fn sequence_id(&self) -> u32 {
        self.sequence_id
    }

    /// The sequence ids of the events, in order.
    pub closed spec fn packet_sequence_ids(&self) -> Seq<u32> {
        self.packets@.map_values(|p: TracePacket| p.sequence_id)
    }

    /// The process track's id.
    pub closed spec fn proc_uuid(&self) -> u64 {
        self.proc_uuid
    }

    pub closed spec fn pid(&self) -> i32 {
        self.pid
    }

    pub closed spec fn process_name(&self) -> Seq<char> {
        self.process_name@
    }

    /// A trace with the process track and no thread tracks or events; the track
    /// and sequence ids are random.
    pub fn new(proc_name: String, pid: u32) -> (r: Self)
        ensures
            r.wf(),
            r.packets() == Seq::<(TrackEventType, Option<Seq<char>>, u64, u64)>::empty(),
            r.tracks() == Map::<u64, u64>::empty(),
            r.process_name() == proc_name@,
            r.pid() == pid as i32,
            r.thread_list() == Seq::<(u64, u64, u64, i32)>::empty(),
            r.packet_sequence_ids() == Seq::<u32>::empty(),
    {
        let proc_uuid: u64 = rand::random();
        let seq: u64 = rand::random();
        let r = PerfettoTraceFile {
            packets: Vec::new(),
            process_name: proc_name,
            proc_uuid,
            thread_descriptors: Vec::new(),
            sequence_id: (seq % 0x1_0000_0000) as u32,
            pid: pid as i32,
        };
        assert(r.packets() =~= Seq::<(TrackEventType, Option<Seq<char>>, u64, u64)>::empty());
        assert(r.tracks() =~= Map::<u64, u64>::empty());
        assert(r.thread_list() =~= Seq::<(u64, u64, u64, i32)>::empty());
        assert(r.packet_sequence_ids() =~= Seq::<u32>::empty());
        r
    }

    /// The track of `thread_id`, if it has one.
    pub fn uuid_for_thread_id(&self, thread_id: u64) -> (r: Option<u64>)
        requires
            self.wf(),
        ensures
            r == (if self.tracks().contains_key(thread_id) {
                Some(self.tracks()[thread_id])
            } else {
                None
            }),
    {
        let mut i: usize = 0;
        while i < self.thread_descriptors.len()
            invariant
                self.wf(),
                i <= self.thread_descriptors@.len(),
                forall|j: int| 0 <= j < i ==> self.thread_descriptors@[j].thread_id != thread_id,
            decreases self.thread_descriptors@.len() - i,
        {
            if self.thread_descriptors[i].thread_id == thread_id {
                proof {
                    let ii = i as int;
                    assert(0 <= ii < self.thread_descriptors@.len() && self.thread_descriptors@[ii].thread_id == thread_id);
                    assert(self.tracks().contains_key(thread_id));
                    let c = choose|j: int| 0 <= j < self.thread_descriptors@.len() && self.thread_descriptors@[j].thread_id == thread_id;
                    assert(self.thread_descriptors@[c].thread_id == self.thread_descriptors@[ii].thread_id);
                    assert(c == ii);
                }
                return Some(self.thread_descriptors[i].uuid);
            }
            i = i + 1;
        }
        None
    }

    fn push_packet(&mut self, event_type: TrackEventType, name: Option<String>, track_uuid: u64, timestamp: u64)
        ensures
            final(self).packets() == old(self).packets().push(
                packet_view(TracePacket { event_type, name, track_uuid, timestamp, sequence_id: 0 }),
            ),
            final(self).packet_sequence_ids() == old(self).packet_sequence_ids().push(old(self).sequence_id),
            final(self).thread_descriptors == old(self).thread_descriptors,
            final(self).pid == old(self).pid,
            final(self).process_name == old(self).process_name,
            final(self).sequence_id == old(self).sequence_id,
            final(self).proc_uuid == old(self).proc_uuid,
    {
        let p = TracePacket { event_type, name, track_uuid, timestamp, sequence_id: self.sequence_id };
        self.packets.push(p);
        assert(self.packet_sequence_ids() =~= old(self).packet_sequence_ids().push(old(self).sequence_id));
        assert(self.packets() =~= old(self).packets().push(
            packet_view(TracePacket { event_type, name, track_uuid, timestamp, sequence_id: 0 }),
        ));
    }

    /// Adds a slice named `name` from `begin` to `end` on the thread's track.
    pub fn add_range_event(&mut self, name: String, thread_id: u64, begin: u64, end: u64)
        requires
            old(self).wf(),
            old(self).tracks().contains_key(thread_id),
        ensures
            final(self).wf(),
            final(self).tracks() == old(self).tracks(),
            final(self).packets() == old(self).packets().push(
                (TrackEventType::SliceBegin, Some(name@), old(self).tracks()[thread_id], begin),
            ).push((TrackEventType::SliceEnd, None, old(self).tracks()[thread_id], end)),
            final(self).packet_sequence_ids() == old(self).packet_sequence_ids().push(old(self).sequence_id()).push(
                old(self).sequence_id(),
            ),
            final(self).sequence_id() == old(self).sequence_id(),
    {
        match self.uuid_for_thread_id(thread_id) {
            Some(uuid) => {
                self.push_packet(TrackEventType::SliceBegin, Some(name), uuid, begin);
                self.push_packet(TrackEventType::SliceEnd, None, uuid, end);
            },
            None => {},
        }
        proof {
            assert(self.tracks() =~= old(self).tracks());
        }
    }

    /// Adds an instant named `name` at `timestamp` on the thread's track.
    pub fn add_point_event(&mut self, name: String, thread_id: u64, timestamp: u64)
        requires
            old(self).wf(),
            old(self).tracks().contains_key(thread_id),
        ensures
            final(self).wf(),
            final(self).tracks() == old(self).tracks(),
            final(self).packets() == old(self).packets().push(
                (TrackEventType::Instant, Some(name@), old(self).tracks()[thread_id], timestamp),
            ),
            final(self).packet_sequence_ids() == old(self).packet_sequence_ids().push(old(self).sequence_id()),
            final(self).sequence_id() == old(self).sequence_id(),
    {
        match self.uuid_for_thread_id(thread_id) {
            Some(uuid) => {
                self.push_packet(TrackEventType::Instant, Some(name), uuid, timestamp);
            },
            None => {},
        }
        proof {
            assert(self.tracks() =~= old(self).tracks());
        }
    }

    /// Gives `thread_id` a track named `thread_name`, with a random id, unless it
    /// has one already.
    pub fn set_thread_name(&mut self, thread_id: u64, thread_name: String)
        requires
            old(self).wf(),
        ensures
            final(self).wf(),
            final(self).packets() == old(self).packets(),
            final(self).packet_sequence_ids() == old(self).packet_sequence_ids(),
            final(self).sequence_id() == old(self).sequence_id(),
            old(self).tracks().contains_key(thread_id) ==> final(self).thread_list() == old(self).thread_list(),
            !old(self).tracks().contains_key(thread_id) ==> {
                &&& final(self).thread_list().len() == old(self).thread_list().len() + 1
                &&& final(self).thread_list().drop_last() == old(self).thread_list()
                &&& final(self).thread_list().last().0 == thread_id
                &&& final(self).thread_list().last().1 == final(self).tracks()[thread_id]
                &&& final(self).thread_list().last().2 == old(self).proc_uuid()
                &&& final(self).thread_list().last().3 == old(self).pid()
            },
            old(self).tracks().contains_key(thread_id) ==> final(self).tracks() == old(self).tracks()
                && final(self).thread_names() == old(self).thread_names(),
            !old(self).tracks().contains_key(thread_id) ==> final(self).tracks().dom() == old(
                self,
            ).tracks().dom().insert(thread_id) && final(self).thread_names() == old(self).thread_names().insert(
                thread_id,
                thread_name@,
            ) && forall|t: u64| #[trigger] old(self).tracks().contains_key(t) ==> final(self).tracks()[t] == old(self).tracks()[t],
    {
        if self.uuid_for_thread_id(thread_id).is_some() {
            return;
        }
        let uuid: u64 = rand::random();
        let ghost old_d = self.thread_descriptors@;
        self.thread_descriptors.push(
            ThreadDescriptor { thread_id, uuid, parent_uuid: self.proc_uuid, pid: self.pid, thread_name },
        );
        proof {
            let d = self.thread_descriptors@;
            let n = old_d.len() as int;
            assert forall|t: u64| #[trigger] self.tracks().contains_key(t) == (old(self).tracks().contains_key(t) || t == thread_id) by {
                if t == thread_id {
                    assert(d[n].thread_id == t);
                }
                if old(self).tracks().contains_key(t) {
                    let c = choose|i: int| 0 <= i < old_d.len() && old_d[i].thread_id == t;
                    assert(d[c].thread_id == t);
                }
                if self.tracks().contains_key(t) && t != thread_id {
                    let c = choose|i: int| 0 <= i < d.len() && d[i].thread_id == t;
                    assert(c < n);
                }
            }
            assert(self.tracks().dom() =~= old(self).tracks().dom().insert(thread_id));
            assert forall|t: u64| #[trigger] old(self).tracks().contains_key(t) implies self.tracks()[t] == old(self).tracks()[t] && self.thread_names()[t] == old(self).thread_names()[t] by {
                let c = choose|i: int| 0 <= i < d.len() && d[i].thread_id == t;
                let c0 = choose|i: int| 0 <= i < old_d.len() && old_d[i].thread_id == t;
                assert(d[c0].thread_id == t);
                assert(c == c0);
            }
            let c = choose|i: int| 0 <= i < d.len() && d[i].thread_id == thread_id;
            assert(d[n].thread_id == thread_id);
            assert(c == n);
            assert(self.thread_names() =~= old(self).thread_names().insert(thread_id, d[n].thread_name@));
            assert(self.thread_list().drop_last() =~= old(self).thread_list());
        }
    }

    /// Number of events added.
    pub fn packet_count(&self) -> (r: usize)
        ensures
            r == self.packets().len(),
    {
        self.packets.len()
    }

    /// Event `i`: kind, name, track and time.
    pub fn packet(&self, i: usize) -> (r: (TrackEventType, Option<String>, u64, u64))
        requires
            i < self.packets().len(),
        ensures
            (r.0, match r.1 { Some(n) => Some(n@), None => None }, r.2, r.3) == self.packets()[i as int],
    {
        let p = &self.packets[i];
        let name = match &p.name {
            Some(n) => Some(n.clone()),
            None => None,
        };
        (p.event_type, name, p.track_uuid, p.timestamp)
    }

    /// The process's name, pid and track id.
    pub fn process(&self) -> (r: (String, i32, u64))
        ensures
            r.0@ == self.process_name(),
            r.1 == self.pid(),
    {
        (self.process_name.clone(), self.pid, self.proc_uuid)
    }

    /// Number of thread tracks.
    pub fn thread_count(&self) -> (r: usize)
        ensures
            r == self.thread_list().len(),
    {
        self.thread_descriptors.len()
    }

    /// Thread track `i`: thread id, track id, thread name.
    pub fn thread(&self, i: usize) -> (r: (u64, u64, String))
        requires
            i < self.thread_list().len(),
        ensures
            (r.0, r.1) == (self.thread_list()[i as int].0, self.thread_list()[i as int].1),
    {
        let d = &self.thread_descriptors[i];
        (d.thread_id, d.uuid, d.thread_name.clone())
    }
}

} // verus!
