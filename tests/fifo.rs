use sparkles::acceptor::{ParsingStateMachine as Reader, TracingEvent as Read, TracingEventId};
use sparkles::fifo::{can_pop, can_push, AtomicTimestampsRing};
use sparkles::fifo_cnt::{counter_len, LockFreeIndex, LockFreeIndexStore, LockIndex, LockIndexStore};
use sparkles::granular_buf::GranularBuf;

#[test]
fn can_pop_test_1n() {
    let index_mask = 3;
    assert_eq!(can_pop(0, 0, 1, index_mask), false); // from the truth table
    assert_eq!(can_pop(0, 1, 1, index_mask), true);
    assert_eq!(can_pop(0, 2, 1, index_mask), true);
    assert_eq!(can_pop(0, 3, 1, index_mask), true);
    assert_eq!(can_pop(1, 0, 1, index_mask), true);
    assert_eq!(can_pop(1, 1, 1, index_mask), false);
    assert_eq!(can_pop(1, 2, 1, index_mask), true);
    assert_eq!(can_pop(1, 3, 1, index_mask), true);
    assert_eq!(can_pop(2, 0, 1, index_mask), true);
    assert_eq!(can_pop(2, 1, 1, index_mask), true);
    assert_eq!(can_pop(2, 2, 1, index_mask), false);
    assert_eq!(can_pop(2, 3, 1, index_mask), true);
    assert_eq!(can_pop(3, 0, 1, index_mask), true);
    assert_eq!(can_pop(3, 1, 1, index_mask), true);
    assert_eq!(can_pop(3, 2, 1, index_mask), true);
    assert_eq!(can_pop(3, 3, 1, index_mask), false);
}

#[test]
fn can_pop_test_2n() {
    let index_mask = 3;
    assert_eq!(can_pop(0, 0, 2, index_mask), false);
    assert_eq!(can_pop(0, 1, 2, index_mask), false);
    assert_eq!(can_pop(0, 2, 2, index_mask), true);
    assert_eq!(can_pop(0, 3, 2, index_mask), true);
    assert_eq!(can_pop(1, 0, 2, index_mask), true);
    assert_eq!(can_pop(1, 1, 2, index_mask), false);
    assert_eq!(can_pop(1, 2, 2, index_mask), false);
    assert_eq!(can_pop(1, 3, 2, index_mask), true);
    assert_eq!(can_pop(2, 0, 2, index_mask), true);
    assert_eq!(can_pop(2, 1, 2, index_mask), true);
    assert_eq!(can_pop(2, 2, 2, index_mask), false);
    assert_eq!(can_pop(2, 3, 2, index_mask), false);
    assert_eq!(can_pop(3, 0, 2, index_mask), false);
    assert_eq!(can_pop(3, 1, 2, index_mask), true);
    assert_eq!(can_pop(3, 2, 2, index_mask), true);
    assert_eq!(can_pop(3, 3, 2, index_mask), false);
}

#[test]
fn can_pop_test_3n() {
    let index_mask = 3;
    assert_eq!(can_pop(0, 0, 3, index_mask), false);
    assert_eq!(can_pop(0, 1, 3, index_mask), false);
    assert_eq!(can_pop(0, 2, 3, index_mask), false);
    assert_eq!(can_pop(0, 3, 3, index_mask), true);
    assert_eq!(can_pop(1, 0, 3, index_mask), true);
    assert_eq!(can_pop(1, 1, 3, index_mask), false);
    assert_eq!(can_pop(1, 2, 3, index_mask), false);
    assert_eq!(can_pop(1, 3, 3, index_mask), false);
    assert_eq!(can_pop(2, 0, 3, index_mask), false);
    assert_eq!(can_pop(2, 1, 3, index_mask), true);
    assert_eq!(can_pop(2, 2, 3, index_mask), false);
    assert_eq!(can_pop(2, 3, 3, index_mask), false);
    assert_eq!(can_pop(3, 0, 3, index_mask), false);
    assert_eq!(can_pop(3, 1, 3, index_mask), false);
    assert_eq!(can_pop(3, 2, 3, index_mask), true);
    assert_eq!(can_pop(3, 3, 3, index_mask), false);
}

#[test]
fn can_push_test_1n() {
    let index_mask = 3;
    assert_eq!(can_push(0, 0, 1, index_mask), true);
    assert_eq!(can_push(0, 1, 1, index_mask), true);
    assert_eq!(can_push(0, 2, 1, index_mask), true);
    assert_eq!(can_push(0, 3, 1, index_mask), false);
    assert_eq!(can_push(1, 0, 1, index_mask), false);
    assert_eq!(can_push(1, 1, 1, index_mask), true);
    assert_eq!(can_push(1, 2, 1, index_mask), true);
    assert_eq!(can_push(1, 3, 1, index_mask), true);
    assert_eq!(can_push(2, 0, 1, index_mask), true);
    assert_eq!(can_push(2, 1, 1, index_mask), false);
    assert_eq!(can_push(2, 2, 1, index_mask), true);
    assert_eq!(can_push(2, 3, 1, index_mask), true);
    assert_eq!(can_push(3, 0, 1, index_mask), true);
    assert_eq!(can_push(3, 1, 1, index_mask), true);
    assert_eq!(can_push(3, 2, 1, index_mask), false);
    assert_eq!(can_push(3, 3, 1, index_mask), true);
}

#[test]
fn can_push_test_2n() {
    let index_mask = 3;
    assert_eq!(can_push(0, 0, 2, index_mask), true);
    assert_eq!(can_push(0, 1, 2, index_mask), true);
    assert_eq!(can_push(0, 2, 2, index_mask), false);
    assert_eq!(can_push(0, 3, 2, index_mask), false);
    assert_eq!(can_push(1, 0, 2, index_mask), false);
    assert_eq!(can_push(1, 1, 2, index_mask), true);
    assert_eq!(can_push(1, 2, 2, index_mask), true);
    assert_eq!(can_push(2, 0, 2, index_mask), false);
    assert_eq!(can_push(2, 1, 2, index_mask), false);
    assert_eq!(can_push(2, 2, 2, index_mask), true);
    assert_eq!(can_push(2, 3, 2, index_mask), true);
    assert_eq!(can_push(3, 0, 2, index_mask), true);
    assert_eq!(can_push(3, 1, 2, index_mask), false);
    assert_eq!(can_push(3, 2, 2, index_mask), false);
    assert_eq!(can_push(3, 3, 2, index_mask), true);
}

#[test]
fn push_pop() {
    let mut ring = AtomicTimestampsRing::new();
    assert_eq!(ring.try_pop(5), None);
    assert_eq!(ring.try_push(1), Some(()));
    assert_eq!(ring.try_push(2), Some(()));
    assert_eq!(ring.try_push(3), Some(()));
    assert_eq!(ring.try_push(4), Some(()));
    assert_eq!(ring.try_pop(5), None);
    assert_eq!(ring.try_push(5), Some(()));
    assert_eq!(ring.try_pop(5), Some(vec![1, 2, 3, 4, 5]));
    assert_eq!(ring.try_pop(5), None);
}

#[test]
fn ring_len_and_remaining_capacity() {
    let mut ring = AtomicTimestampsRing::new();
    assert!(ring.is_empty());
    assert_eq!(ring.capacity(), 1024);
    assert_eq!(ring.remaining_cap(), 1023);
    ring.try_push(7);
    ring.try_push(8);
    assert_eq!(ring.len(), 2);
    assert_eq!(ring.remaining_cap(), 1021);
    assert!(!ring.is_empty());
}

#[test]
fn ring_refuses_push_when_full() {
    let mut ring = AtomicTimestampsRing::new();
    for i in 0..1023u32 {
        assert_eq!(ring.try_push((i % 256) as u8), Some(()));
    }
    assert_eq!(ring.try_push(1), None);
    assert_eq!(ring.try_pop(2), Some(vec![0, 1]));
    assert_eq!(ring.try_push(1), Some(()));
}

#[test]
fn buf_operations() {
    let mut buf = GranularBuf::new();

    let data = [1, 2, 3, 4, 5, 6, 7, 8];
    let data2 = [9, 10, 11, 12, 13, 14, 15, 16];

    buf.try_push(&data).unwrap();
    buf.try_push(&data2).unwrap();

    let res = buf.try_pop(8).unwrap();
    assert_eq!(res, data2);

    let res = buf.try_pop(8).unwrap();
    assert_eq!(res, data);
}

#[test]
fn granular_buf_spills_to_next_slice() {
    let mut buf = GranularBuf::new();
    let big = [3u8; 120];
    assert_eq!(buf.try_push(&big), Some(()));
    assert_eq!(buf.try_push(&[1, 2, 3, 4, 5, 6, 7, 8]), Some(()));
    assert_eq!(buf.try_pop(8), Some(vec![3u8; 8]));
    assert_eq!(buf.try_push(&[0u8; 200]), None);
}

#[test]
fn packed_write_counter_fields() {
    let c = LockFreeIndex((5 << 16) | (2 << 8) | 3);
    assert_eq!(c.index(), 5);
    assert_eq!(c.done_count(), 2);
    assert_eq!(c.in_process_count(), 3);
}

#[test]
fn packed_read_counter_fields() {
    let c = LockIndex(0x10000 | 17);
    assert_eq!(c.index(), 17);
    assert!(c.is_locked());
    assert!(!LockIndex(17).is_locked());
}

#[test]
fn counter_len_wraps_round() {
    assert_eq!(counter_len(LockIndex(2), LockFreeIndex(5 << 16), 8), 3);
    assert_eq!(counter_len(LockIndex(6), LockFreeIndex(1 << 16), 8), 3);
}

#[test]
fn write_counter_in_progress_then_done() {
    let mut store = LockFreeIndexStore::new();
    let (c, idx) = store.increment_in_progress(|_, _| false, 2).unwrap();
    assert_eq!(idx, 0);
    assert_eq!(c.in_process_count(), 2);
    store.increment_done(c, 2);
    assert_eq!(store.load().index(), 2);
    assert_eq!(store.load().in_process_count(), 0);
    assert!(store.increment_in_progress(|_, _| true, 1).is_err());
    assert!(store.increment_in_progress(|_, _| false, 7).is_err());
}

#[test]
fn read_counter_lock_then_done() {
    let mut store = LockIndexStore::new();
    let (c, idx) = store.increment_start(|_, _| false).unwrap();
    assert_eq!(idx, 0);
    assert!(store.load().is_locked());
    assert!(store.increment_start(|_, _| false).is_err());
    store.increment_done(c, 3);
    assert_eq!(store.load().index(), 3);
    assert!(!store.load().is_locked());
}

#[test]
fn collector_encodes_events() {
    use_collector();
}

fn use_collector() {
    let mut t = sparkles::collector::ThreadLocalStorage::new();
    t.event(10, "a", 0, 0x1234);
    t.event(11, "b", 300, 0x0001);
    t.event(10, "a", 5, 0x0002);
    assert_eq!(
        t.flush(),
        vec![0x81, 0x12, 0x34, 0x82, 0x00, 0x01, 0x2C, 0x02, 0x81, 0x00, 0x02, 0x05]
    );
    assert!(t.flush().is_empty());
}

#[test]
fn id_store_counts_from_one() {
    let mut s = sparkles::id_mapping::IdStore::new();
    assert_eq!(s.insert_and_get_id(7, "x"), 1);
    assert_eq!(s.insert_and_get_id(8, "y"), 2);
    assert_eq!(s.insert_and_get_id(7, "x"), 1);
}

#[test]
fn acceptor_reads_collector_stream() {
    use_acceptor();
}

fn use_acceptor() {
    let mut t = sparkles::collector::ThreadLocalStorage::new();
    t.event(10, "a", 0, 0x1234);
    t.event(11, "b", 300, 0x00ff);
    let mut bytes = t.flush();
    bytes.push(0x80);
    let mut r = Reader::EventId;
    let events = r.parse_many(&bytes);
    assert_eq!(
        events,
        vec![
            Read(TracingEventId::MainLoopEnd, 0x1234, 0),
            Read(TracingEventId::DriversPoll, 0x00ff, 300),
        ]
    );
    assert_eq!(TracingEventId::from_u8(27), TracingEventId::DmaPollFn);
    assert_eq!(TracingEventId::from_u8(28), TracingEventId::Unknown);
}

struct VecBuf(Vec<u8>);

impl sparkles::tracing::SharedTraceBufferTrait for VecBuf {
    fn try_push(&mut self, v: &[u8]) -> Option<()> {
        self.0.extend_from_slice(v);
        Some(())
    }
    fn try_pop(&mut self, n: u8) -> Option<Vec<u8>> {
        if self.0.len() < n as usize {
            return None;
        }
        Some(self.0.drain(..n as usize).collect())
    }
    fn new() -> Self {
        VecBuf(Vec::new())
    }
}

#[test]
fn prototype_tracer_encodes_periods() {
    let mut t: sparkles::tracing::Tracer<VecBuf> = sparkles::tracing::Tracer::new();
    assert!(t.event(1, 256 * 5 + 7));
    assert!(t.event(2, 256 * 5 + 9));
    assert!(t.event(3, 256 * 200));
    assert_eq!(t.buffer().0, vec![0x81, 7, 69, 0x82, 9, 0x83, 0, 3, 67]);
    assert_eq!(sparkles::tracing::encode_event(0, 0, 63), vec![0x80, 0, 63]);
    assert_eq!(sparkles::tracing::encode_event(0, 0, 64), vec![0x80, 0, 0, 65]);
}
