//! A byte ring of 1024 places driven by the packed counters of `fifo_cnt`: one
//! place always stays free, so the ring holds at most 1023 bytes.
use vstd::prelude::*;
use vstd::arithmetic::power2::pow2;
use crate::fifo_cnt::{counter_len, LockFreeIndex, LockFreeIndexStore, LockIndex, LockIndexStore, RINGBUF_IND_MASK};

verus! {

/// `m` is `2^k - 1` for some `k` below 32: a mask of ring indices.
pub open spec fn is_index_mask(m: usize) -> bool {
    exists|k: nat| k < 31 && m as int == vstd::bits::low_bits_mask(k) as int
}

/// Bytes readable from read index `r` to write index `w` in a ring of `mask + 1` places.
pub open spec fn pop_room(r: int, w: int, mask: int) -> int {
    (w - r + mask + 1) % (mask + 1)
}

/// Places writable at write index `w` before read index `r` (one place stays free).
pub open spec fn push_room(r: int, w: int, mask: int) -> int {
    (mask + r - w) % (mask + 1)
}

proof fn lemma_mask_bound(m: usize)
    requires
        is_index_mask(m),
    ensures
        m < 0x8000_0000,
{
    let k = choose|k: nat| k < 31 && m as int == vstd::bits::low_bits_mask(k) as int;
    vstd::arithmetic::power2::lemma_pow2_pos(k);
    vstd::arithmetic::power2::lemma_pow2_strictly_increases(k, 31);
    vstd::arithmetic::power2::lemma2_to64();
}

proof fn lemma_mask_is_mod(x64: u64, m: usize)
    requires
        is_index_mask(m),
    ensures
        (x64 & (m as u64)) as int == x64 as int % (m as int + 1),
        m < 0x8000_0000,
{
    let k = choose|k: nat| k < 31 && m as int == vstd::bits::low_bits_mask(k) as int;
    lemma_mask_bound(m);
    vstd::bits::lemma_u64_low_bits_mask_is_mod(x64, k);
    vstd::arithmetic::power2::lemma_pow2_pos(k);
    vstd::arithmetic::power2::lemma_pow2_strictly_increases(k, 31);
    vstd::arithmetic::power2::lemma2_to64();
    assert(vstd::bits::low_bits_mask(k) as u64 == m as u64);
    assert(pow2(k) as u64 == m as u64 + 1);
}

proof fn lemma_ring_mask()
    ensures
        is_index_mask(1023),
{
    vstd::bits::lemma_low_bits_mask_values();
    assert(1023usize as int == vstd::bits::low_bits_mask(10) as int);
}

/// `x & mask` as an index, for a mask of ring indices.
fn mask_index(x: usize, index_mask: usize) -> (r: usize)
    requires
        is_index_mask(index_mask),
    ensures
        r == x as int % (index_mask as int + 1),
{
    proof {
        lemma_mask_is_mod(x as u64, index_mask);
    }
    assert(index_mask as u64 as usize == index_mask);
    ((x as u64) & (index_mask as u64)) as usize
}

/// At least `n` bytes can be read between read index `r` and write index `w`.
pub fn can_pop(r: usize, w: usize, n: u8, index_mask: usize) -> (res: bool)
    requires
        is_index_mask(index_mask),
        r <= index_mask,
        w <= index_mask,
    ensures
        res == (pop_room(r as int, w as int, index_mask as int) >= n),
{
    proof {
        lemma_mask_bound(index_mask);
    }
    mask_index(w + index_mask + 1 - r, index_mask) >= n as usize
}

/// At least `n` bytes can be written at write index `w` before read index `r`.
pub fn can_push(r: usize, w: usize, n: u8, index_mask: usize) -> (res: bool)
    requires
        is_index_mask(index_mask),
        r <= index_mask,
        w <= index_mask,
    ensures
        res == (push_room(r as int, w as int, index_mask as int) >= n),
{
    proof {
        lemma_mask_bound(index_mask);
    }
    mask_index(index_mask + r - w, index_mask) >= n as usize
}

/// The byte ring.
pub struct AtomicTimestampsRing {
    buf: Vec<u8>,
    write_ind: LockFreeIndexStore,
    read_ind: LockIndexStore,
}

impl AtomicTimestampsRing {
    pub closed spec fn read_index(&self) -> int {
        self.read_ind.value().index_spec()
    }

    pub closed spec fn write_index(&self) -> int {
        self.write_ind.value().index_spec()
    }

    /// The bytes held, oldest first.
    pub closed spec fn contents(&self) -> Seq<u8> {
        Seq::new(
            pop_room(self.read_index(), self.write_index(), 1023) as nat,
            |i: int| self.buf@[(self.read_index() + i) % 1024],
        )
    }

    pub closed spec fn wf(&self) -> bool {
        &&& self.buf@.len() == 1024
        &&& self.write_ind.value().0 % 65536 == 0
        &&& self.write_ind.value().index_spec() <= 1023
        &&& self.read_ind.value().0 <= 1023
    }

    pub fn new() -> (r: Self)
        ensures
            r.wf(),
            r.contents() == Seq::<u8>::empty(),
    {
        let mut buf: Vec<u8> = Vec::new();
        let mut i: usize = 0;
        while i < 1024
            invariant
                i <= 1024,
                buf@.len() == i,
            decreases 1024 - i,
        {
            buf.push(0);
            i = i + 1;
        }
        let r = AtomicTimestampsRing { buf, read_ind: LockIndexStore::new(), write_ind: LockFreeIndexStore::new() };
        assert(r.contents() =~= Seq::<u8>::empty());
        r
    }

    pub fn capacity(&self) -> (r: usize)
        requires
            self.wf(),
        ensures
            r == 1024,
    {
        self.buf.len()
    }

    /// Number of bytes held.
    pub fn len(&self) -> (r: usize)
        requires
            self.wf(),
        ensures
            r == self.contents().len(),
    {
        let read_counters = self.read_ind.load();
        let write_counters = self.write_ind.load();
        counter_len(read_counters, write_counters, self.capacity())
    }

    pub fn is_empty(&self) -> (r: bool)
        requires
            self.wf(),
        ensures
            r == (self.contents().len() == 0),
    {
        self.len() == 0
    }

    /// Places left for writing (one place always stays free).
    pub fn remaining_cap(&self) -> (r: usize)
        requires
            self.wf(),
        ensures
            r == 1023 - self.contents().len(),
    {
        let read_counters = self.read_ind.load();
        let write_counters = self.write_ind.load();
        let cap = self.capacity();
        let read_index = read_counters.index();
        let write_index = write_counters.index();
        let len = if read_index <= write_index {
            write_index - read_index
        } else {
            write_index + cap - read_index
        };
        proof {
            assert(write_counters.0 as int % 256 == 0);
        }
        cap - 1 - len - write_counters.in_process_count() as usize
    }

    /// Appends `v` unless the ring is full.
    pub fn try_push(&mut self, v: u8) -> (r: Option<()>)
        requires
            old(self).wf(),
        ensures
            final(self).wf(),
            r is Some <==> old(self).contents().len() < 1023,
            r is Some ==> final(self).contents() == old(self).contents().push(v),
            r is None ==> final(self).contents() == old(self).contents(),
    {
        let read = self.read_ind.load().index();
        let write = self.write_ind.load().index();
        proof {
            lemma_ring_mask();
        }
        if !can_push(read, write, 1, RINGBUF_IND_MASK) {
            return None;
        }
        let proceed = |i: usize, c: u8| -> (b: bool)
            ensures
                !b,
            { false };
        match self.write_ind.increment_in_progress(proceed, 1) {
            Ok((counters, to_write_index)) => {
                let ghost old_c = old(self).contents();
                self.buf.set(to_write_index, v);
                self.write_ind.increment_done(counters, 1);
                proof {
                    assert(self.write_index() == (old(self).write_index() + 1) % 1024);
                    assert(self.contents() =~= old_c.push(v));
                }
                Some(())
            },
            Err(()) => None,
        }
    }

    /// Removes and returns the `n` oldest bytes, unless fewer are held.
    #[verifier::rlimit(50)]
    pub fn try_pop(&mut self, n: u8) -> (r: Option<Vec<u8>>)
        requires
            old(self).wf(),
        ensures
            final(self).wf(),
            r is Some <==> old(self).contents().len() >= n,
            r is Some ==> (r->0)@ == old(self).contents().take(n as int) && final(self).contents()
                == old(self).contents().skip(n as int),
            r is None ==> final(self).contents() == old(self).contents(),
    {
        let read = self.read_ind.load().index();
        let write = self.write_ind.load().index();
        proof {
            lemma_ring_mask();
        }
        if !can_pop(read, write, n, RINGBUF_IND_MASK) {
            return None;
        }
        let cond = |i: usize, l: bool| -> (b: bool)
            ensures
                !b,
            { false };
        match self.read_ind.increment_start(cond) {
            Ok((counters, to_read_index)) => {
                let ghost old_c = old(self).contents();
                let mut popped: Vec<u8> = Vec::new();
                let mut i: usize = 0;
                while i < n as usize
                    invariant
                        i <= n,
                        self.buf@.len() == 1024,
                        to_read_index <= 1023,
                        n <= old_c.len(),
                        self.buf == old(self).buf,
                        to_read_index == old(self).read_index(),
                        is_index_mask(RINGBUF_IND_MASK),
                        old_c == old(self).contents(),
                        popped@ == old_c.take(i as int),
                    decreases n - i,
                {
                    let idx = mask_index(to_read_index + i, RINGBUF_IND_MASK);
                    proof {
                        assert(old_c == old(self).contents());
                        assert(old(self).contents()[i as int] == old(self).buf@[(old(self).read_index() + i) % 1024]);
                        assert(old_c[i as int] == self.buf@[idx as int]);
                        assert(old_c.take(i + 1) =~= old_c.take(i as int).push(old_c[i as int]));
                    }
                    popped.push(self.buf[idx]);
                    i = i + 1;
                }
                self.read_ind.increment_done(counters, n);
                proof {
                    assert(self.contents() =~= old_c.skip(n as int));
                }
                Some(popped)
            },
            Err(()) => None,
        }
    }
}

} // verus!
