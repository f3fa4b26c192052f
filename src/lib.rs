//! In-process tracing: per-thread event recording, a bounded global store of
//! packets, the framed wire format and a streaming decoder for it.
use vstd::prelude::*;

pub mod bytes;
pub mod id_mapping;
pub mod config;
pub mod headers;
pub mod frame;
pub mod local_storage;
pub mod ring;
pub mod global_storage;
pub mod encoder;
pub mod decoder;
pub mod fifo_cnt;
pub mod fifo;
pub mod granular_buf;
pub mod parser;
pub mod perfetto;
pub mod freq;
pub mod worker;
pub mod wire;
pub mod receiver;
pub mod collector;
pub mod acceptor;
pub mod tracing;

verus! {

/// Version of the encoder written into the encoder-info packet.
pub const ENCODER_VERSION: u32 = 2;

} // verus!
