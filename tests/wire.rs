use sparkles::config::LocalStorageConfig;
use sparkles::decoder::StreamFrameDecoder;
use sparkles::frame::TracingEvent;
use sparkles::local_storage::LocalStorage;
use sparkles::config::StoreConfig;
use sparkles::encoder::{data_packet, encoder_info_packet, frequency_packet, goodbye_packet, missed_page_packet, Sender, SenderChain, send_data_bytes, send_timestamp_freq, send_failed_page_headers};
use sparkles::freq::TimestampFreqDetector;
use sparkles::global_storage::GlobalStorage;
use sparkles::perfetto::{PerfettoTraceFile, TrackEventType};
use sparkles::wire::{decode_entries, decode_packet, DecodeError, WirePacket};
use sparkles::worker::SenderWorker;

struct Collect(Vec<u8>);

impl Sender for Collect {
    fn send(&mut self, data: &[u8]) {
        self.0.extend_from_slice(data);
    }
}

fn framed(h: &[u8], p: &[u8]) -> Vec<u8> {
    let mut v = (h.len() as u64).to_le_bytes().to_vec();
    v.extend_from_slice(h);
    v.extend_from_slice(&(p.len() as u64).to_le_bytes());
    v.extend_from_slice(p);
    v
}

#[test]
fn wire_round_trip_of_each_packet() {
    let mut stream = encoder_info_packet(&[1, 2, 3]);
    let body = [framed(&[7], &[0, 0]), framed(&[8, 8], &[])].concat();
    stream.extend(data_packet(&body[..5], &body[5..]));
    stream.extend(missed_page_packet(&[9]));
    stream.extend(frequency_packet(3_000_000_000));
    stream.extend(goodbye_packet());

    let (p, pos) = decode_packet(&stream, 0).unwrap();
    assert!(matches!(p, WirePacket::EncoderInfo(ref b) if b == &vec![1, 2, 3]));
    let (p, pos) = decode_packet(&stream, pos).unwrap();
    match p {
        WirePacket::Data(es) => assert_eq!(es, vec![(vec![7], vec![0, 0]), (vec![8, 8], vec![])]),
        _ => panic!("expected data"),
    }
    let (p, pos) = decode_packet(&stream, pos).unwrap();
    assert!(matches!(p, WirePacket::MissedPage(ref b) if b == &vec![9]));
    let (p, pos) = decode_packet(&stream, pos).unwrap();
    assert!(matches!(p, WirePacket::Frequency(3_000_000_000)));
    let (p, pos) = decode_packet(&stream, pos).unwrap();
    assert!(matches!(p, WirePacket::Goodbye));
    assert_eq!(pos, stream.len());
    assert_eq!(decode_packet(&stream, pos).err(), Some(DecodeError::Incomplete));
}

#[test]
fn wire_errors() {
    assert_eq!(decode_packet(&[0x07], 0).err(), Some(DecodeError::UnknownPacketType(7)));
    assert_eq!(decode_packet(&[0x03, 1, 2], 0).err(), Some(DecodeError::Incomplete));
    assert_eq!(decode_packet(&[0x02, 5, 0, 0, 0, 0, 0, 0, 0, 1], 0).err(), Some(DecodeError::Incomplete));
    let bad = data_packet(&[3, 0, 0, 0, 0, 0, 0, 0, 1], &[]);
    assert_eq!(decode_packet(&bad, 0).err(), Some(DecodeError::Malformed));
    assert!(decode_entries(&[1, 2, 3]).is_none());
    assert_eq!(decode_entries(&[]), Some(vec![]));
}

#[test]
fn send_helpers_write_packets() {
    let mut c = Collect(Vec::new());
    send_data_bytes(&mut c, &[1], &[2]);
    send_timestamp_freq(&mut c, 1);
    send_failed_page_headers(&mut c, &vec![vec![4], vec![5]]);
    assert_eq!(
        c.0,
        vec![1, 2, 0, 0, 0, 0, 0, 0, 0, 1, 2, 3, 1, 0, 0, 0, 0, 0, 0, 0, 2, 1, 0, 0, 0, 0, 0, 0, 0, 4, 2, 1, 0, 0, 0, 0, 0, 0, 0, 5]
    );
}

#[test]
fn sender_chain_fans_out() {
    let mut chain = SenderChain::new();
    chain.with_sender(Collect(Vec::new()));
    chain.with_sender(Collect(Vec::new()));
    chain.send(&[1, 2]);
    chain.send(&[3]);
    let mut c = Collect(Vec::new());
    send_timestamp_freq(&mut c, 0);
    assert_eq!(c.0.len(), 9);
}

#[test]
fn worker_emits_in_order() {
    let mut store = GlobalStorage::new(StoreConfig::with_percentages(1000, 50, 90, 70));
    let (mut worker, hello) = SenderWorker::start(&[42], 100, 0, 0);
    assert_eq!(hello, vec![0, 1, 0, 0, 0, 0, 0, 0, 0, 42]);
    store.push_buf(&[1], &[2, 3]);
    // not due, below the flush threshold: nothing
    assert!(worker.tick(&mut store, 50, 50, false).is_empty());
    // due: the rate only (50 more ticks over 100 ns)
    let out = worker.tick(&mut store, 150, 150, false);
    assert_eq!(out[0], 3);
    assert_eq!(u64::from_le_bytes(out[1..9].try_into().unwrap()), 1_000_000_000);
    assert_eq!(out.len(), 9);
    // finalizing: data, last rate, goodbye
    let out = worker.tick(&mut store, 160, 160, true);
    let mut expected = data_packet(&framed(&[1], &[2, 3]), &[]);
    expected.extend(frequency_packet(1_000_000_000));
    expected.push(0xff);
    assert_eq!(out, expected);
}

#[test]
fn worker_reports_missed_pages() {
    let mut store = GlobalStorage::new(StoreConfig::with_percentages(64, 10, 90, 70));
    store.push_buf(&[5], &[0u8; 100]);
    let (mut worker, _) = SenderWorker::start(&[], 1_000, 0, 0);
    let out = worker.tick(&mut store, 1, 1, false);
    assert_eq!(out, missed_page_packet(&[5]));
}

#[test]
fn frequency_detector_samples_after_interval() {
    let mut d = TimestampFreqDetector::start(1000, 0, 0);
    assert_eq!(d.next(10, 500), None);
    assert_eq!(d.next(3000, 1001), Some(2_997_002_997));
    assert_eq!(d.next_forced(3000, 1001), 0);
    assert_eq!(d.next_forced(3001, 1001), u64::MAX);
}

#[test]
fn trace_file_collects_events() {
    let mut t = PerfettoTraceFile::new("proc".to_string(), 7);
    t.set_thread_name(3, "main".to_string());
    t.set_thread_name(3, "other".to_string());
    assert_eq!(t.thread_count(), 1);
    let uuid = t.uuid_for_thread_id(3).unwrap();
    assert_eq!(t.uuid_for_thread_id(4), None);
    t.add_point_event("a".to_string(), 3, 10);
    t.add_range_event("r".to_string(), 3, 20, 30);
    assert_eq!(t.packet_count(), 3);
    assert_eq!(t.packet(0), (TrackEventType::Instant, Some("a".to_string()), uuid, 10));
    assert_eq!(t.packet(1), (TrackEventType::SliceBegin, Some("r".to_string()), uuid, 20));
    assert_eq!(t.packet(2), (TrackEventType::SliceEnd, None, uuid, 30));
    let (name, pid, _) = t.process();
    assert_eq!((name.as_str(), pid), ("proc", 7));
    assert_eq!(t.thread(0).2, "main");
}

#[test]
fn end_to_end_two_threads() {

    let mut store = GlobalStorage::new(StoreConfig::with_percentages(1 << 16, 10, 90, 70));
    let mut t0 = LocalStorage::new(0, None, LocalStorageConfig::default());
    let mut t1 = LocalStorage::new(1, None, LocalStorageConfig::default());
    let (r, _) = t0.event_range_start(1, "outer", 100, false);
    t1.event_instant(2, "ping", 150, false);
    t0.event_instant(3, "tick", 130, false);
    t0.event_range_end(r, 0, "", 190, false);
    for (ord, ls) in [(0u64, &mut t0), (1u64, &mut t1)] {
        let (header, data) = ls.flush(true).unwrap();
        assert_eq!(header.thread_ord_id, ord);
        store.push_buf(&ord.to_le_bytes(), &data);
    }
    let (mut worker, _) = SenderWorker::start(&[], u64::MAX, 0, 0);
    let stream = worker.tick(&mut store, 0, 0, true);
    let (packet, _) = decode_packet(&stream, 0).unwrap();
    let entries = match packet {
        WirePacket::Data(es) => es,
        _ => panic!("expected data"),
    };
    assert_eq!(entries.len(), 2);
    let mut per_thread = Vec::new();
    for (hdr, payload) in entries {
        let ord = u64::from_le_bytes(hdr.try_into().unwrap());
        let mut dec = StreamFrameDecoder::new();
        per_thread.push((ord, dec.decode_many(&payload).unwrap()));
    }
    assert_eq!(per_thread[0], (0, vec![
        TracingEvent::RangePart(0, 0, 0),
        TracingEvent::Instant(1, 30),
        TracingEvent::UnnamedRangeEnd(60, 0),
    ]));
    assert_eq!(per_thread[1], (1, vec![TracingEvent::Instant(0, 0)]));
}

#[test]
fn worker_final_rate_when_sample_due() {
    let mut store = GlobalStorage::new(StoreConfig::with_percentages(1000, 50, 90, 70));
    let (mut worker, _) = SenderWorker::start(&[], 100, 0, 0);
    let out = worker.tick(&mut store, 400, 200, true);
    let mut expected = frequency_packet(2_000_000_000);
    expected.extend(frequency_packet(2_000_000_000));
    expected.push(0xff);
    assert_eq!(out, expected);
}
