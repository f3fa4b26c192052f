use sparkles::config::{LocalStorageConfig, StoreConfig};
use sparkles::decoder::StreamFrameDecoder;
use sparkles::encoder::{data_packet, frequency_packet, goodbye_packet, missed_page_packet, encoder_info_packet};
use sparkles::frame::TracingEvent;
use sparkles::global_storage::GlobalStorage;
use sparkles::headers::{SparklesEncoderInfo, ThreadInfo};
use sparkles::id_mapping::{EventType, IdStoreRepr};
use sparkles::local_storage::LocalStorage;
use sparkles::receiver::ParsingStateMachine;
use sparkles::parser::{absolute_timestamps, display_timestamps, ticks_to_ns, RangeTracker, TraceRecord};

fn recorder() -> LocalStorage {
    let info = ThreadInfo { thread_id: 77, new_thread_name: Some("t".to_string()) };
    LocalStorage::new(0, Some(info), LocalStorageConfig::default())
}

#[test]
fn single_instant() {
    let mut ls = recorder();
    assert!(ls.event_instant(0x41, "A", 100, false).is_none());
    let (header, data) = ls.flush(false).unwrap();
    assert_eq!(header.start_timestamp, 100);
    assert_eq!(header.end_timestamp, 100);
    assert_eq!(header.id_store.tags.len(), 1);
    assert_eq!(header.id_store.tags[0].0, "A");
    assert_eq!(header.id_store.tags[0].1, EventType::Instant);
    assert_eq!(header.thread_info.as_ref().unwrap().new_thread_name.as_deref(), Some("t"));
    assert_eq!(data, vec![0x00, 0x00]);
    let mut dec = StreamFrameDecoder::new();
    let events = dec.decode_many(&data).unwrap();
    assert_eq!(events, vec![TracingEvent::Instant(0, 0)]);
    let times = display_timestamps(header.start_timestamp, &events, None);
    assert_eq!(times, vec![100]);
    let mut tracker = RangeTracker::new();
    match tracker.on_event(&header.id_store, events[0], times[0]) {
        Some(TraceRecord::Point { name, timestamp }) => {
            assert_eq!(name, "A");
            assert_eq!(timestamp, 100);
        }
        _ => panic!("expected a point event"),
    }
    // the thread name goes out once
    assert!(ls.event_instant(0x41, "A", 200, false).is_none());
    let (header2, _) = ls.flush(false).unwrap();
    assert_eq!(header2.thread_info.as_ref().unwrap().new_thread_name, None);
}

#[test]
fn two_instants_growing_delta() {
    let mut ls = recorder();
    ls.event_instant(0x41, "A", 100, false);
    ls.event_instant(0x41, "A", 356, false);
    let (header, data) = ls.flush(false).unwrap();
    assert_eq!(data, vec![0, 0, 0, 2, 0x00, 0x01]);
    assert_eq!(header.end_timestamp, 356);
    let mut dec = StreamFrameDecoder::new();
    let events = dec.decode_many(&data).unwrap();
    assert_eq!(events, vec![TracingEvent::Instant(0, 0), TracingEvent::Instant(0, 256)]);
    assert_eq!(absolute_timestamps(header.start_timestamp, &events), vec![100, 356]);
}

#[test]
fn named_range() {
    let mut ls = recorder();
    let (start, p) = ls.event_range_start(0x1000, "work", 10, false);
    assert!(p.is_none());
    assert!(ls.event_range_end(start, 0x2000, "ok", 522, false).is_none());
    let (header, data) = ls.flush(false).unwrap();
    assert_eq!(data, vec![0, 0x80, 0, 1, 0x82, 0, 0x00, 0x02]);
    assert_eq!(header.id_store.tags[1].1, EventType::RangeEnd(0));
    let mut dec = StreamFrameDecoder::new();
    let events = dec.decode_many(&data).unwrap();
    assert_eq!(events, vec![TracingEvent::RangePart(0, 0, 0), TracingEvent::RangePart(1, 512, 0)]);
    let times = absolute_timestamps(header.start_timestamp, &events);
    let mut tracker = RangeTracker::new();
    assert!(tracker.on_event(&header.id_store, events[0], times[0]).is_none());
    match tracker.on_event(&header.id_store, events[1], times[1]) {
        Some(TraceRecord::Range { start_name, end_name, start, end }) => {
            assert_eq!(start_name, "work");
            assert_eq!(end_name.as_deref(), Some("ok"));
            assert_eq!((start, end), (10, 522));
        }
        _ => panic!("expected a range"),
    }
}

#[test]
fn unnamed_range_end_by_drop() {
    let mut ls = recorder();
    let (start, _) = ls.event_range_start(0x3000, "scope", 0, false);
    ls.event_range_end(start, 0, "", 50, false);
    let (header, data) = ls.flush(false).unwrap();
    assert_eq!(data, vec![0, 0x80, 0, 0, 0xC1, 0, 50]);
    let mut dec = StreamFrameDecoder::new();
    let events = dec.decode_many(&data).unwrap();
    assert!(matches!(events[1], TracingEvent::UnnamedRangeEnd(_, 0)));
    let times = absolute_timestamps(header.start_timestamp, &events);
    let mut tracker = RangeTracker::new();
    tracker.on_event(&header.id_store, events[0], times[0]);
    match tracker.on_event(&header.id_store, events[1], times[1]) {
        Some(TraceRecord::Range { start_name, end_name, start, end }) => {
            assert_eq!(start_name, "scope");
            assert_eq!(end_name, None);
            assert_eq!((start, end), (0, 50));
        }
        _ => panic!("expected a range"),
    }
}

#[test]
fn unnamed_range_end_keeps_its_span() {
    let mut ls = recorder();
    let (start, _) = ls.event_range_start(0x3000, "scope", 1000, false);
    ls.event_range_end(start, 0, "", 1050, false);
    let (header, data) = ls.flush(false).unwrap();
    assert_eq!(data, vec![0, 0x80, 0, 0, 0xC1, 0, 50]);
    let mut dec = StreamFrameDecoder::new();
    let events = dec.decode_many(&data).unwrap();
    let times = absolute_timestamps(header.start_timestamp, &events);
    let mut tracker = RangeTracker::new();
    tracker.on_event(&header.id_store, events[0], times[0]);
    match tracker.on_event(&header.id_store, events[1], times[1]) {
        Some(TraceRecord::Range { start, end, .. }) => assert_eq!((start, end), (1000, 1050)),
        _ => panic!("expected a range"),
    }
}

#[test]
fn overlapping_ranges_pair_by_ordinal() {
    let mut ls = recorder();
    let (a, _) = ls.event_range_start(1, "a", 10, false);
    let (b, _) = ls.event_range_start(2, "b", 20, false);
    ls.event_range_end(a, 0, "", 30, false);
    ls.event_range_end(b, 0, "", 40, false);
    let (header, data) = ls.flush(false).unwrap();
    let mut dec = StreamFrameDecoder::new();
    let events = dec.decode_many(&data).unwrap();
    let times = absolute_timestamps(header.start_timestamp, &events);
    let mut tracker = RangeTracker::new();
    let mut ranges = Vec::new();
    for i in 0..events.len() {
        if let Some(TraceRecord::Range { start_name, start, end, .. }) = tracker.on_event(&header.id_store, events[i], times[i]) {
            ranges.push((start_name, start, end));
        }
    }
    assert_eq!(ranges, vec![("a".to_string(), 10, 30), ("b".to_string(), 20, 40)]);
}

#[test]
fn same_name_same_id_within_packet() {
    let mut ls = recorder();
    ls.event_instant(5, "x", 1, false);
    ls.event_instant(6, "y", 2, false);
    ls.event_instant(5, "x", 3, false);
    let (header, data) = ls.flush(false).unwrap();
    assert_eq!(header.id_store.tags.len(), 2);
    assert_eq!(data, vec![0, 0, 1, 1, 1, 0, 1, 1]);
}

#[test]
fn same_name_two_kinds_two_ids() {
    let mut store = IdStoreRepr::new();
    assert_eq!(store.insert_and_get_id(9, "n", EventType::Instant), 0);
    assert_eq!(store.insert_and_get_id(9, "n", EventType::RangeStart), 1);
    assert_eq!(store.insert_and_get_id(9, "n", EventType::Instant), 0);
    assert_eq!(store.insert_and_get_id(u32::MAX, "m", EventType::RangeEnd(1)), 2);
}

#[test]
fn dictionary_holds_256_pairs() {
    let mut store = IdStoreRepr::new();
    for h in 0..256u32 {
        assert_eq!(store.insert_and_get_id(h * 7, "e", EventType::Instant), h as u8);
    }
    assert_eq!(store.insert_and_get_id(7 * 255, "e", EventType::Instant), 255);
}

#[test]
fn flush_of_empty_packet_is_none() {
    let mut ls = recorder();
    assert!(ls.flush(true).is_none());
}

#[test]
fn auto_flush_at_hard_threshold() {
    let config = LocalStorageConfig { flush_attempt_threshold: 4, flush_threshold: 6 };
    let mut ls = LocalStorage::new(3, None, config);
    assert!(ls.event_instant(1, "a", 5, false).is_none());
    assert!(ls.event_instant(1, "a", 6, false).is_none());
    let (header, data) = ls.event_instant(1, "a", 7, false).unwrap();
    assert_eq!(header.thread_ord_id, 3);
    assert_eq!(data, vec![0, 0, 0, 1, 1, 0, 1, 1]);
    assert!(ls.flush(false).is_none());
}

#[test]
fn soft_threshold_flushes_only_when_store_is_free() {
    let config = LocalStorageConfig { flush_attempt_threshold: 4, flush_threshold: 100 };
    let mut ls = LocalStorage::new(3, None, config);
    assert!(ls.event_instant(1, "a", 5, false).is_none());
    assert!(ls.event_instant(1, "a", 6, false).is_none());
    let (_, data) = ls.event_instant(1, "a", 7, true).unwrap();
    assert_eq!(data, vec![0, 0, 0, 1, 1, 0, 1, 1]);
}

#[test]
fn thread_rename_goes_into_next_header() {
    let mut ls = recorder();
    ls.set_cur_thread_name("worker".to_string());
    ls.event_instant(1, "a", 5, false);
    let (header, _) = ls.flush(false).unwrap();
    let info = header.thread_info.unwrap();
    assert_eq!(info.thread_id, 77);
    assert_eq!(info.new_thread_name.as_deref(), Some("worker"));
}

#[test]
fn stream_decoder_under_fragmentation() {
    let payload = [0u8, 1, 0x0A, 0, 2, 0x00, 0x01];
    let expected = vec![TracingEvent::Instant(0, 10), TracingEvent::Instant(0, 256)];
    let mut whole = StreamFrameDecoder::new();
    assert_eq!(whole.decode_many(&payload).unwrap(), expected);
    assert!(whole.ensure_buf_end());
    for split in 0..=payload.len() {
        let mut dec = StreamFrameDecoder::new();
        let mut out = dec.decode_many(&payload[..split]).unwrap();
        out.extend(dec.decode_many(&payload[split..]).unwrap());
        assert_eq!(out, expected);
        assert!(dec.ensure_buf_end());
    }
    let mut dec = StreamFrameDecoder::new();
    let mut out = Vec::new();
    for b in payload.iter() {
        out.extend(dec.decode_many(&[*b]).unwrap());
    }
    assert_eq!(out, expected);
}

#[test]
fn decoder_reports_partial_frame() {
    let mut dec = StreamFrameDecoder::new();
    assert!(dec.decode_many(&[0, 2, 0x00]).unwrap().is_empty());
    assert!(!dec.ensure_buf_end());
    assert_eq!(dec.decode_many(&[0x01]).unwrap(), vec![TracingEvent::Instant(0, 256)]);
    assert!(dec.ensure_buf_end());
}

#[test]
fn decoder_reads_long_deltas_and_unnamed_ends() {
    let mut dec = StreamFrameDecoder::new();
    let bytes = [3u8, 8, 1, 2, 3, 4, 5, 6, 7, 8, 0, 0xC1, 9, 0xff];
    assert_eq!(
        dec.decode_many(&bytes).unwrap(),
        vec![TracingEvent::Instant(3, 0x0807060504030201), TracingEvent::UnnamedRangeEnd(0xff, 9)]
    );
}

#[test]
fn decoder_takes_more_than_its_ring() {
    let mut payload = Vec::new();
    let n = 600_000usize;
    for _ in 0..n {
        payload.push(1u8);
        payload.push(0u8);
    }
    let mut dec = StreamFrameDecoder::new();
    let events = dec.decode_many(&payload).unwrap();
    assert_eq!(events.len(), n);
    assert!(dec.ensure_buf_end());
}

fn store(capacity: usize) -> GlobalStorage {
    GlobalStorage::new(StoreConfig::with_percentages(capacity, 10, 90, 70))
}

#[test]
fn ring_eviction() {
    let mut gs = store(4096);
    let mut evicted = 0;
    for i in 0..10u8 {
        let header = vec![i; 8];
        let payload = vec![i; 1000];
        evicted += gs.push_buf(&header, &payload);
    }
    let missed = gs.take_failed_pages();
    assert_eq!(missed.len(), evicted);
    // each push that passes the high mark (90 %) drops the two oldest entries
    // to get back under the low mark (70 %)
    assert_eq!(evicted, 8);
    // the headers of evicted packets come oldest first
    for (k, h) in missed.iter().enumerate() {
        assert_eq!(h, &vec![k as u8; 8]);
    }
    let (a, b) = gs.try_take_buf(true).unwrap();
    let mut bytes = a;
    bytes.extend(b);
    // what stays are the most recent packets, whole
    let kept = 10 - evicted;
    assert_eq!(bytes.len(), kept * (16 + 8 + 1000));
    for (k, chunk) in bytes.chunks(16 + 8 + 1000).enumerate() {
        let id = (evicted + k) as u8;
        assert_eq!(&chunk[0..8], &8u64.to_le_bytes());
        assert_eq!(&chunk[8..16], &[id; 8]);
        assert_eq!(&chunk[16..24], &1000u64.to_le_bytes());
        assert!(chunk[24..].iter().all(|x| *x == id));
    }
    assert!(gs.try_take_buf(true).is_none());
}

#[test]
fn oversized_packet_is_reported_missed() {
    let mut gs = store(64);
    assert_eq!(gs.push_buf(&[1, 2], &[0u8; 100]), 1);
    assert_eq!(gs.take_failed_pages(), vec![vec![1, 2]]);
    assert!(gs.try_take_buf(true).is_none());
}

#[test]
fn drain_waits_for_flush_threshold() {
    let mut gs = store(1000);
    gs.push_buf(&[7], &[1, 2, 3]);
    assert!(gs.try_take_buf(false).is_none());
    gs.push_buf(&[8], &[0u8; 80]);
    let (a, b) = gs.try_take_buf(false).unwrap();
    assert_eq!(a.len() + b.len(), 16 + 1 + 3 + 16 + 1 + 80);
}

#[test]
fn wire_packets() {
    assert_eq!(frequency_packet(0x0102), vec![3, 2, 1, 0, 0, 0, 0, 0, 0]);
    assert_eq!(goodbye_packet(), vec![0xff]);
    assert_eq!(missed_page_packet(&[9, 9]), vec![2, 2, 0, 0, 0, 0, 0, 0, 0, 9, 9]);
    assert_eq!(encoder_info_packet(&[5]), vec![0, 1, 0, 0, 0, 0, 0, 0, 0, 5]);
    assert_eq!(data_packet(&[1, 2], &[3]), vec![1, 3, 0, 0, 0, 0, 0, 0, 0, 1, 2, 3]);
}

#[test]
fn ticks_convert_to_nanoseconds() {
    assert_eq!(ticks_to_ns(3000, Some(3_000_000_000)), 1000);
    assert_eq!(ticks_to_ns(3000, None), 3000);
    assert_eq!(ticks_to_ns(3000, Some(0)), 3000);
}

#[test]
fn zero_delta_events_are_nudged() {
    let events = vec![
        TracingEvent::Instant(0, 0),
        TracingEvent::Instant(0, 0),
        TracingEvent::Instant(0, 0),
        TracingEvent::Instant(0, 5),
        TracingEvent::Instant(0, 0),
    ];
    assert_eq!(display_timestamps(100, &events, None), vec![100, 110, 120, 105, 115]);
}

#[test]
fn encoder_info_defaults() {
    let info = SparklesEncoderInfo::new("proc".to_string(), 42);
    assert_eq!(info.pid, 42);
    assert_eq!(info.process_name, "proc");
    assert_eq!(info.ver, sparkles::ENCODER_VERSION);
    assert_eq!(info.timestamp_max_value, u64::MAX);
}

#[test]
fn store_config_percentages() {
    let c = StoreConfig::default();
    assert_eq!(c.capacity, 50 * 1024 * 1024);
    assert_eq!(c.flush_threshold, 5 * 1024 * 1024);
    let d = LocalStorageConfig::default();
    assert_eq!((d.flush_attempt_threshold, d.flush_threshold), (32 * 1024, 1024 * 1024));
}

#[test]
fn byte_machine_matches_stream_decoder() {
    let mut ls = recorder();
    let (a, _) = ls.event_range_start(1, "a", 1000, false);
    ls.event_instant(100, "i", 1000, false);
    ls.event_instant(100, "i", 70_000, false);
    ls.event_range_end(a, 3, "done", 0x1_0000_0000_0000, false);
    let (_, data) = ls.flush(false).unwrap();
    let mut m = ParsingStateMachine::NewFrame;
    let by_byte = m.parse_many(&data).unwrap();
    assert_eq!(m, ParsingStateMachine::NewFrame);
    let mut dec = StreamFrameDecoder::new();
    assert_eq!(by_byte, dec.decode_many(&data).unwrap());
    assert_eq!(by_byte.len(), 4);
    assert_eq!(by_byte[2], TracingEvent::Instant(1, 69_000));
    assert_eq!(by_byte[3], TracingEvent::RangePart(2, 0x1_0000_0000_0000 - 70_000, 0));
}

#[test]
fn byte_machine_stops_inside_frame() {
    let mut m = ParsingStateMachine::NewFrame;
    assert_eq!(m.parse_many(&[0, 1, 0x0A, 0, 2, 0x00]).unwrap(), vec![TracingEvent::Instant(0, 10)]);
    assert_ne!(m, ParsingStateMachine::NewFrame);
    assert_eq!(m.next_byte(0x01), Some(TracingEvent::Instant(0, 256)));
    assert_eq!(m, ParsingStateMachine::NewFrame);
}

#[test]
fn decoder_rejects_long_delta_length() {
    let mut dec = StreamFrameDecoder::new();
    assert_eq!(dec.decode_many(&[0, 0]).unwrap(), vec![TracingEvent::Instant(0, 0)]);
    assert!(dec.decode_many(&[0, 0x09, 1, 2]).is_err());
    // the stream stays rejected
    assert!(dec.decode_many(&[0, 0]).is_err());
    assert!(!dec.ensure_buf_end());
    let mut dec = StreamFrameDecoder::new();
    assert!(dec.decode_many(&[1, 0x8F]).is_err());
}

#[test]
fn byte_machine_rejects_long_delta_length() {
    let mut m = ParsingStateMachine::NewFrame;
    assert!(m.parse_many(&[0, 0, 0, 0x49, 7]).is_err());
    assert_eq!(m, ParsingStateMachine::Malformed);
    let mut m = ParsingStateMachine::NewFrame;
    assert!(m.parse_many(&[0, 8, 1, 2, 3, 4, 5, 6, 7, 8]).is_ok());
}

#[test]
fn push_that_fits_evicts_nothing() {
    let mut gs = store(4096);
    assert_eq!(gs.push_buf(&[1], &[0u8; 100]), 0);
    assert_eq!(gs.push_buf(&[2], &[0u8; 100]), 0);
    assert!(gs.take_failed_pages().is_empty());
}
