//! Packet headers and the encoder description.
use vstd::prelude::*;
use crate::id_mapping::IdStoreMap;

verus! {

/// Describes one thread's packet of encoded events.
pub struct LocalPacketHeader {
    /// Process-unique order number of the thread.
    pub thread_ord_id: u64,
    pub thread_info: Option<ThreadInfo>,
    /// Timestamp of the first event of the packet.
    pub start_timestamp: u64,
    /// Timestamp of the last event of the packet.
    pub end_timestamp: u64,
    /// The `(name, kind)` pairs, indexed by local id.
    pub id_store: IdStoreMap,
}

/// OS thread id, and a name given since the previous flush.
pub struct ThreadInfo {
    pub thread_id: u64,
    pub new_thread_name: Option<String>,
}

/// Sent once at the start of a stream.
pub struct SparklesEncoderInfo {
    pub ver: u32,
    pub process_name: String,
    pub pid: u32,
    pub timestamp_max_value: u64,
}

/// Largest value of the 64-bit tick counter; the next tick is 0.
pub const TIMESTAMP_MAX_VALUE: u64 = 0xffff_ffff_ffff_ffff;

impl SparklesEncoderInfo {
    pub fn new(process_name: String, pid: u32) -> (r: Self)
        ensures
            r.process_name@ == process_name@,
            r.pid == pid,
            r.ver == crate::ENCODER_VERSION,
            r.timestamp_max_value == TIMESTAMP_MAX_VALUE,
    {
        SparklesEncoderInfo {
            pid,
            process_name,
            ver: crate::ENCODER_VERSION,
            timestamp_max_value: TIMESTAMP_MAX_VALUE,
        }
    }
}

} // verus!
