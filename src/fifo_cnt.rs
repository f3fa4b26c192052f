//! Packed index counters of the byte ring in `fifo`.
//!
//! A write counter packs the index (bits 16 and up), the number of bytes being
//! written (bits 0..8) and the number already written (bits 8..16). A read
//! counter packs the index (bits 0..16) and a lock flag (bit 16).
//!
//! The counters are kept behind `&mut self`: one owner updates them, so an
//! operation that would wait for another writer fails instead.
use vstd::prelude::*;

verus! {

/// Mask of the ring's indices; the ring has `RINGBUF_IND_MASK + 1` places.
pub const RINGBUF_IND_MASK: usize = 1023;

/// At most this many bytes may be in flight at once.
pub const MAX_IN_PROGRESS_BYTES_WRITE: u8 = 6;

/// Packed write counter.
#[derive(Clone, Copy, PartialEq, Eq, Structural)]
pub struct LockFreeIndex(pub usize);

impl LockFreeIndex {
    pub open spec fn index_spec(self) -> int {
        self.0 as int / 65536
    }

    pub open spec fn in_process_spec(self) -> int {
        self.0 as int % 256
    }

    pub open spec fn done_spec(self) -> int {
        (self.0 as int / 256) % 256
    }

    pub fn index(self) -> (r: usize)
        ensures
            r == self.index_spec(),
    {
        let v = self.0;
        assert(v >> 16 == v / 65536) by (bit_vector);
        v >> 16
    }

    pub fn in_process_count(self) -> (r: u8)
        ensures
            r == self.in_process_spec(),
    {
        let v = self.0;
        assert(v & 0xff == v % 256) by (bit_vector);
        (v & 0xff) as u8
    }

    pub fn done_count(self) -> (r: u8)
        ensures
            r == self.done_spec(),
    {
        let v = self.0;
        assert((v >> 8) & 0xff == (v / 256) % 256) by (bit_vector);
        ((v >> 8) & 0xff) as u8
    }
}

/// Number of bytes between the read and the write index of a ring of `cap` places.
pub fn counter_len(read_counters: LockIndex, write_counters: LockFreeIndex, cap: usize) -> (r: usize)
    requires
        read_counters.index_spec() <= cap,
        write_counters.index_spec() <= cap,
    ensures
        r == if read_counters.index_spec() <= write_counters.index_spec() {
            write_counters.index_spec() - read_counters.index_spec()
        } else {
            write_counters.index_spec() + cap - read_counters.index_spec()
        },
{
    let read_index = read_counters.index();
    let write_index = write_counters.index();
    if read_index <= write_index {
        write_index - read_index
    } else {
        write_index + (cap - read_index)
    }
}

/// Holder of a write counter.
pub struct LockFreeIndexStore {
    counters: usize,
}

impl LockFreeIndexStore {
    pub closed spec fn value(&self) -> LockFreeIndex {
        LockFreeIndex(self.counters)
    }

    pub fn new() -> (r: LockFreeIndexStore)
        ensures
            r.value().0 == 0,
    {
        LockFreeIndexStore { counters: 0 }
    }

    pub fn load(&self) -> (r: LockFreeIndex)
        ensures
            r == self.value(),
    {
        LockFreeIndex(self.counters)
    }

    /// Reserves `n` bytes after those in flight, at index
    /// `(index + in_process) & RINGBUF_IND_MASK`, unless `error_condition` holds
    /// for the current index or that one, or more than
    /// `MAX_IN_PROGRESS_BYTES_WRITE` bytes would be in flight. On success the
    /// in-flight count grows by `n`.
    pub fn increment_in_progress<F: Fn(usize, u8) -> bool>(&mut self, error_condition: F, n: u8) -> (r:
        Result<(LockFreeIndex, usize), ()>)
        requires
            forall|i: usize, c: u8| #[trigger] error_condition.requires((i, c)),
            old(self).value().in_process_spec() + n < 256,
        ensures
            r is Err ==> *final(self) == *old(self),
            (forall|i: usize, c: u8, b: bool| error_condition.ensures((i, c), b) ==> !b)
                && old(self).value().in_process_spec() + n <= MAX_IN_PROGRESS_BYTES_WRITE ==> r is Ok,
            r is Ok ==> {
                let (nc, idx) = r->Ok_0;
                let old_v = old(self).value();
                &&& idx == (old_v.index_spec() + old_v.in_process_spec()) % (RINGBUF_IND_MASK + 1)
                &&& nc.0 == old_v.0 + n
                &&& final(self).value() == nc
                &&& old_v.in_process_spec() + n <= MAX_IN_PROGRESS_BYTES_WRITE
                &&& error_condition.ensures((old_v.index_spec() as usize, old_v.in_process_spec() as u8), false)
                &&& error_condition.ensures((idx, old_v.in_process_spec() as u8), false)
            },
    {
        let counters = self.load();
        let in_progress_count = counters.in_process_count();
        if error_condition(counters.index(), in_progress_count) {
            return Err(());
        }
        if in_progress_count + n > MAX_IN_PROGRESS_BYTES_WRITE {
            return Err(());
        }
        let i = counters.index();
        assert(i <= usize::MAX / 65536) by {
            assert(counters.0 as int / 65536 <= usize::MAX as int / 65536) by (nonlinear_arith)
                requires
                    counters.0 <= usize::MAX,
            ;
        }
        let sum = i + in_progress_count as usize;
        let index = sum & RINGBUF_IND_MASK;
        assert(sum & 1023 == sum % 1024) by (bit_vector);
        if error_condition(index, in_progress_count) {
            return Err(());
        }
        let new_counters = LockFreeIndex(counters.0 + n as usize);
        self.counters = new_counters.0;
        Ok((new_counters, index))
    }

    /// Marks `n` bytes of `counters` as written: once all bytes in flight are
    /// written, the index moves past them and both counts return to 0.
    pub fn increment_done(&mut self, counters: LockFreeIndex, n: u8)
        requires
            counters.index_spec() <= RINGBUF_IND_MASK,
            counters.in_process_spec() <= MAX_IN_PROGRESS_BYTES_WRITE,
            counters.0 + 65536 <= usize::MAX,
        ensures
            ({
                let done = (counters.done_spec() + n) % 256;
                if done == counters.in_process_spec() {
                    final(self).value().0 == ((counters.index_spec() + counters.in_process_spec())
                        % (RINGBUF_IND_MASK + 1)) * 65536
                } else {
                    final(self).value().0 == counters.0 + n * 256
                }
            }),
    {
        let in_process_count = counters.in_process_count();
        let done = counters.done_count().wrapping_add(n);
        if done == in_process_count {
            let sum = counters.index() + in_process_count as usize;
            let idx = sum & RINGBUF_IND_MASK;
            assert(sum & 1023 == sum % 1024) by (bit_vector);
            assert(idx << 16 == idx * 65536) by (bit_vector)
                requires
                    idx < 1024,
            ;
            self.counters = idx << 16;
        } else {
            let nn = n as usize;
            assert(nn << 8 == nn * 256) by (bit_vector)
                requires
                    nn < 256,
            ;
            assert(counters.0 + nn * 256 <= usize::MAX);
            self.counters = counters.0 + (nn << 8);
        }
    }
}

/// Packed read counter.
#[derive(Clone, Copy, PartialEq, Eq, Structural)]
pub struct LockIndex(pub usize);

impl LockIndex {
    pub open spec fn index_spec(self) -> int {
        self.0 as int % 65536
    }

    pub open spec fn locked_spec(self) -> bool {
        (self.0 as int / 65536) % 2 == 1
    }

    pub fn index(self) -> (r: usize)
        ensures
            r == self.index_spec(),
    {
        let v = self.0;
        assert(v & 0xffff == v % 65536) by (bit_vector);
        v & 0xffff
    }

    pub fn is_locked(self) -> (r: bool)
        ensures
            r == self.locked_spec(),
    {
        let v = self.0;
        assert((v & 0x10000 != 0) == ((v / 65536) % 2 == 1)) by (bit_vector);
        v & 0x10000 != 0
    }
}

/// Holder of a read counter.
pub struct LockIndexStore {
    counters: usize,
}

impl LockIndexStore {
    pub closed spec fn value(&self) -> LockIndex {
        LockIndex(self.counters)
    }

    pub fn new() -> (r: LockIndexStore)
        ensures
            r.value().0 == 0,
    {
        LockIndexStore { counters: 0 }
    }

    pub fn load(&self) -> (r: LockIndex)
        ensures
            r == self.value(),
    {
        LockIndex(self.counters)
    }

    /// Locks the counter for a read at its index, unless it is locked already or
    /// `error_condition` holds for the index.
    pub fn increment_start<F: Fn(usize, bool) -> bool>(&mut self, error_condition: F) -> (r: Result<
        (LockIndex, usize),
        (),
    >)
        requires
            forall|i: usize, l: bool| #[trigger] error_condition.requires((i, l)),
            old(self).value().0 < 0x20000,
        ensures
            r is Err ==> *final(self) == *old(self),
            (forall|i: usize, l: bool, b: bool| error_condition.ensures((i, l), b) ==> !b)
                && !old(self).value().locked_spec() ==> r is Ok,
            old(self).value().locked_spec() ==> r is Err,
            r is Ok ==> {
                let (nc, idx) = r->Ok_0;
                &&& idx == old(self).value().index_spec()
                &&& nc.0 == old(self).value().0 + 65536
                &&& nc.locked_spec()
                &&& nc.index_spec() == idx
                &&& final(self).value() == nc
                &&& error_condition.ensures((idx, false), false)
            },
    {
        let counters = self.load();
        if counters.is_locked() {
            return Err(());
        }
        let index = counters.index();
        if error_condition(index, false) {
            return Err(());
        }
        let v = counters.0;
        assert(v < 65536);
        assert((v | 0x10000) == v + 65536) by (bit_vector)
            requires
                v < 65536,
        ;
        let new_counters = LockIndex(v | 0x10000);
        self.counters = new_counters.0;
        Ok((new_counters, index))
    }

    /// Unlocks the counter and moves its index `n` places on.
    pub fn increment_done(&mut self, counters: LockIndex, n: u8)
        ensures
            final(self).value().0 == (counters.index_spec() + n) % (RINGBUF_IND_MASK + 1),
    {
        let sum = counters.index() + n as usize;
        assert(sum & 1023 == sum % 1024) by (bit_vector);
        self.counters = sum & RINGBUF_IND_MASK;
    }
}

} // verus!
