//! Thresholds of the per-thread recorder and of the global store.
use vstd::prelude::*;

verus! {

/// Flush thresholds of a thread-local recorder, in bytes of payload.
#[derive(Clone, Copy, Debug)]
pub struct LocalStorageConfig {
    /// Soft threshold: at this size a flush is attempted if the global store is free.
    pub flush_attempt_threshold: usize,
    /// Hard threshold: at this size the recorder flushes, waiting for the store if need be.
    pub flush_threshold: usize,
}

impl LocalStorageConfig {
    /// 32 KiB soft threshold, 1 MiB hard threshold.
    pub fn default() -> (r: Self)
        ensures
            r.flush_attempt_threshold == 32 * 1024,
            r.flush_threshold == 1024 * 1024,
    {
        LocalStorageConfig { flush_attempt_threshold: 32 * 1024, flush_threshold: 1024 * 1024 }
    }
}

/// Capacity and thresholds of the global store, in bytes.
#[derive(Clone, Copy, Debug)]
pub struct StoreConfig {
    /// Capacity of the ring.
    pub capacity: usize,
    /// A non-final drain takes the ring's contents only above this fill.
    pub flush_threshold: usize,
    /// Above this fill after a push, the oldest entries are evicted ...
    pub cleanup_high: usize,
    /// ... until the fill is at most this.
    pub cleanup_low: usize,
}

impl StoreConfig {
    /// Thresholds at the given percentages of the capacity (rounded down).
    pub fn with_percentages(capacity: usize, flush_pct: u8, high_pct: u8, low_pct: u8) -> (r: Self)
        requires
            flush_pct <= 100,
            high_pct <= 100,
            low_pct <= 100,
        ensures
            r.capacity == capacity,
            r.flush_threshold == capacity as int * flush_pct as int / 100,
            r.cleanup_high == capacity as int * high_pct as int / 100,
            r.cleanup_low == capacity as int * low_pct as int / 100,
    {
        let c = capacity as u128;
        assert(c * 100 <= 0xffff_ffff_ffff_ffff * 100) by (nonlinear_arith)
            requires
                c <= 0xffff_ffff_ffff_ffff,
        ;
        assert(c * flush_pct as u128 <= c * 100) by (nonlinear_arith)
            requires
                flush_pct <= 100,
        ;
        assert(c * high_pct as u128 <= c * 100) by (nonlinear_arith)
            requires
                high_pct <= 100,
        ;
        assert(c * low_pct as u128 <= c * 100) by (nonlinear_arith)
            requires
                low_pct <= 100,
        ;
        assert(c * 100 / 100 == c) by (nonlinear_arith);
        assert((c * flush_pct as u128) / 100 <= c * 100 / 100) by (nonlinear_arith)
            requires
                c * flush_pct as u128 <= c * 100,
        ;
        assert((c * high_pct as u128) / 100 <= c * 100 / 100) by (nonlinear_arith)
            requires
                c * high_pct as u128 <= c * 100,
        ;
        assert((c * low_pct as u128) / 100 <= c * 100 / 100) by (nonlinear_arith)
            requires
                c * low_pct as u128 <= c * 100,
        ;
        StoreConfig {
            capacity,
            flush_threshold: ((c * flush_pct as u128) / 100) as usize,
            cleanup_high: ((c * high_pct as u128) / 100) as usize,
            cleanup_low: ((c * low_pct as u128) / 100) as usize,
        }
    }

    /// 50 MiB ring; drain from 10 %, evict above 90 % down to 70 %.
    pub fn default() -> (r: Self)
        ensures
            r.capacity == 50 * 1024 * 1024,
            r.flush_threshold == 50 * 1024 * 1024 / 10,
            r.cleanup_high == 50 * 1024 * 1024 * 9 / 10,
            r.cleanup_low == 50 * 1024 * 1024 * 7 / 10,
    {
        Self::with_percentages(50 * 1024 * 1024, 10, 90, 70)
    }
}

} // verus!

verus! {

/// Where the file sink writes; without a name, a timestamped file under `trace/`.
#[derive(Clone, Debug)]
pub struct FileSenderConfig {
    pub output_filename: Option<String>,
}

impl Default for FileSenderConfig {
    fn default() -> (r: Self)
        ensures
            r.output_filename is None,
    {
        FileSenderConfig { output_filename: None }
    }
}

/// Local port of the datagram sink; without one, the default port.
#[derive(Clone, Copy, Debug)]
pub struct UdpSenderConfig {
    pub local_port: Option<u16>,
}

/// Port the datagram sink binds when none is configured.
pub const DEFAULT_UDP_PORT: u16 = 38338;

impl Default for UdpSenderConfig {
    fn default() -> (r: Self)
        ensures
            r.local_port is None,
    {
        UdpSenderConfig { local_port: None }
    }
}

impl UdpSenderConfig {
    /// The port to bind.
    pub fn port(&self) -> (r: u16)
        ensures
            r == match self.local_port {
                Some(p) => p,
                None => DEFAULT_UDP_PORT,
            },
    {
        match self.local_port {
            Some(p) => p,
            None => DEFAULT_UDP_PORT,
        }
    }
}

} // verus!
