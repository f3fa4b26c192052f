//! The global store: a bounded ring of framed packets
//! `[hdr_len: u64 LE][hdr][payload_len: u64 LE][payload]`.
//!
//! Entries are always whole. When a push would not fit, or the fill passes the
//! high threshold after a push, the oldest entries are evicted and their headers
//! kept, to be reported as missed pages.
use vstd::prelude::*;
use crate::bytes::{le_to_u64, le_value, lemma_le_bytes_len, lemma_le_round_trip, lemma_pow256_8, u64_le, u64_to_le};
use crate::config::StoreConfig;
use crate::ring::{ring_bytes, ring_capacity, ring_clear, ring_len, ring_new, ring_pop_n, ring_push, ring_skip, ring_slices, ByteRing};

verus! {

/// A stored entry: serialized header and payload.
pub type Entry = (Seq<u8>, Seq<u8>);

/// The framed bytes of one entry.
pub open spec fn entry_bytes(e: Entry) -> Seq<u8> {
    u64_le(e.0.len() as u64).add(e.0).add(u64_le(e.1.len() as u64)).add(e.1)
}

/// Size of an entry in the ring.
pub open spec fn entry_size(e: Entry) -> int {
    16 + e.0.len() as int + e.1.len() as int
}

/// The framed bytes of entries, oldest first.
pub open spec fn entries_bytes(es: Seq<Entry>) -> Seq<u8>
    decreases es.len(),
{
    if es.len() == 0 {
        Seq::empty()
    } else {
        entry_bytes(es[0]).add(entries_bytes(es.drop_first()))
    }
}

/// Bytes the entries take in the ring.
pub open spec fn fill_of(es: Seq<Entry>) -> int {
    entries_bytes(es).len() as int
}

/// The least `k` from `from` on such that the entries after the first `k` take
/// at most `bound` bytes (all of them gone, if need be).
pub open spec fn least_evictions(es: Seq<Entry>, from: int, bound: int) -> int
    decreases es.len() - from,
{
    if from >= es.len() || fill_of(es.skip(from)) <= bound {
        from
    } else {
        least_evictions(es, from + 1, bound)
    }
}

/// The headers of entries, in order.
pub open spec fn headers_of(es: Seq<Entry>) -> Seq<Seq<u8>> {
    es.map_values(|e: Entry| e.0)
}

pub proof fn lemma_entries_bytes_push(es: Seq<Entry>, e: Entry)
    ensures
        entries_bytes(es.push(e)) == entries_bytes(es).add(entry_bytes(e)),
    decreases es.len(),
{
    if es.len() == 0 {
        assert(es.push(e).drop_first() =~= Seq::<Entry>::empty());
        assert(entries_bytes(Seq::<Entry>::empty()) =~= Seq::<u8>::empty());
        assert(es.push(e)[0] == e);
        assert(entries_bytes(es) =~= Seq::<u8>::empty());
        assert(entries_bytes(es.push(e)) =~= entry_bytes(e).add(Seq::<u8>::empty()));
        assert(entries_bytes(es.push(e)) =~= entries_bytes(es).add(entry_bytes(e)));
    } else {
        lemma_entries_bytes_push(es.drop_first(), e);
        assert(es.push(e).drop_first() =~= es.drop_first().push(e));
        assert(entries_bytes(es.push(e)) =~= entries_bytes(es).add(entry_bytes(e)));
    }
}

proof fn lemma_entries_len(es: Seq<Entry>)
    ensures
        entries_bytes(es).len() >= 16 * es.len(),
    decreases es.len(),
{
    if es.len() > 0 {
        lemma_entries_len(es.drop_first());
        lemma_entry_size(es[0]);
    }
}

proof fn lemma_entry_size(e: Entry)
    ensures
        entry_bytes(e).len() == entry_size(e),
{
    lemma_le_bytes_len(e.0.len() as u64 as nat, 8);
    lemma_le_bytes_len(e.1.len() as u64 as nat, 8);
}

/// The bounded store of packets shared by all recorders.
pub struct GlobalStorage {
    config: StoreConfig,
    inner: ByteRing,
    skipped_msr_pages_headers: Vec<Vec<u8>>,
    /// The entries held by the ring, oldest first.
    entries: Ghost<Seq<Entry>>,
}

impl GlobalStorage {
    pub closed spec fn entries(&self) -> Seq<Entry> {
        self.entries@
    }

    /// Headers of the evicted entries not yet taken, in order of eviction.
    pub closed spec fn skipped(&self) -> Seq<Seq<u8>> {
        self.skipped_msr_pages_headers@.map_values(|v: Vec<u8>| v@)
    }

    /// Bytes held by the ring.
    pub closed spec fn fill(&self) -> nat {
        ring_bytes(self.inner).len()
    }

    pub closed spec fn config(&self) -> StoreConfig {
        self.config
    }

    pub closed spec fn wf(&self) -> bool {
        &&& ring_bytes(self.inner) == entries_bytes(self.entries@)
        &&& ring_capacity(self.inner) == self.config.capacity
        &&& ring_bytes(self.inner).len() <= self.config.capacity
        &&& self.config.capacity > 0
    }

    /// An empty store of the configured capacity.
    pub fn new(config: StoreConfig) -> (r: Self)
        requires
            config.capacity > 0,
        ensures
            r.wf(),
            r.config() == config,
            r.entries() == Seq::<Entry>::empty(),
            r.skipped() == Seq::<Seq<u8>>::empty(),
            r.fill() == 0,
    {
        let r = GlobalStorage {
            config,
            inner: ring_new(config.capacity),
            skipped_msr_pages_headers: Vec::new(),
            entries: Ghost(Seq::empty()),
        };
        assert(r.skipped() =~= Seq::<Seq<u8>>::empty());
        r
    }

    /// Removes the oldest entry and keeps its header.
    fn evict_oldest(&mut self)
        requires
            old(self).wf(),
            old(self).entries().len() > 0,
        ensures
            final(self).wf(),
            final(self).entries() == old(self).entries().drop_first(),
            final(self).skipped() == old(self).skipped().push(old(self).entries()[0].0),
            final(self).config() == old(self).config(),
            final(self).fill() == old(self).fill() - entry_size(old(self).entries()[0]),
    {
        let ghost es = self.entries@;
        let ghost e = es[0];
        let ghost rest = entries_bytes(es.drop_first());
        proof {
            lemma_entry_size(e);
            lemma_le_bytes_len(e.0.len() as u64 as nat, 8);
            lemma_le_bytes_len(e.1.len() as u64 as nat, 8);
            lemma_pow256_8();
            lemma_le_round_trip(e.0.len() as nat, 8);
            lemma_le_round_trip(e.1.len() as nat, 8);
            let all = ring_bytes(self.inner);
            assert(all.take(8) =~= u64_le(e.0.len() as u64));
        }
        let hl_bytes = ring_pop_n(&mut self.inner, 8);
        let hl = le_to_u64(hl_bytes.as_slice());
        proof {
            assert(ring_bytes(self.inner) =~= e.0.add(u64_le(e.1.len() as u64)).add(e.1).add(rest));
            assert(hl == e.0.len());
        }
        let header = ring_pop_n(&mut self.inner, hl as usize);
        proof {
            assert(header@ =~= e.0);
            assert(ring_bytes(self.inner) =~= u64_le(e.1.len() as u64).add(e.1).add(rest));
            assert(ring_bytes(self.inner).take(8) =~= u64_le(e.1.len() as u64));
        }
        let pl_bytes = ring_pop_n(&mut self.inner, 8);
        let pl = le_to_u64(pl_bytes.as_slice());
        proof {
            assert(ring_bytes(self.inner) =~= e.1.add(rest));
            assert(pl == e.1.len());
        }
        ring_skip(&mut self.inner, pl as usize);
        proof {
            assert(ring_bytes(self.inner) =~= rest);
        }
        self.skipped_msr_pages_headers.push(header);
        self.entries = Ghost(es.drop_first());
        proof {
            assert(self.skipped() =~= old(self).skipped().push(e.0));
        }
    }

    /// Stores the packet `(header, buf)` as one framed entry and returns how many
    /// packets were evicted (their headers are kept for missed-page reports).
    ///
    /// A packet larger than the whole ring is not stored: it counts as evicted
    /// itself. Otherwise the oldest entries make room if needed, the packet is
    /// written, and if the fill then exceeds the high threshold the oldest entries
    /// go until it is at most the low one.
    pub fn push_buf(&mut self, header: &[u8], buf: &[u8]) -> (r: usize)
        requires
            old(self).wf(),
        ensures
            final(self).wf(),
            final(self).config() == old(self).config(),
            entry_size((header@, buf@)) > old(self).config().capacity ==> {
                &&& r == 1
                &&& final(self).entries() == old(self).entries()
                &&& final(self).skipped() == old(self).skipped().push(header@)
            },
            entry_size((header@, buf@)) <= old(self).config().capacity ==> ({
                let all = old(self).entries().push((header@, buf@));
                let c = old(self).config();
                let room = least_evictions(old(self).entries(), 0, c.capacity - entry_size((header@, buf@)));
                &&& r == if fill_of(all.skip(room)) > c.cleanup_high {
                    least_evictions(all, room, c.cleanup_low as int)
                } else {
                    room
                }
                &&& r <= all.len()
                &&& final(self).entries() == all.skip(r as int)
                &&& final(self).skipped() == old(self).skipped().add(headers_of(all.take(r as int)))
                &&& final(self).fill() <= old(self).config().cleanup_high || final(self).fill()
                    <= old(self).config().cleanup_low
            }),
            final(self).skipped().len() == old(self).skipped().len() + r,
            final(self).entries().len() + r == old(self).entries().len() + 1,
    {
        let cap = self.config.capacity;
        let size: u128 = 16 + header.len() as u128 + buf.len() as u128;
        if size > cap as u128 {
            let mut h: Vec<u8> = Vec::new();
            h.extend_from_slice(header);
            assert(h@ =~= header@);
            self.skipped_msr_pages_headers.push(h);
            proof {
                assert(self.skipped() =~= old(self).skipped().push(header@));
            }
            return 1;
        }
        let ghost new_e: Entry = (header@, buf@);
        let ghost all = old(self).entries().push(new_e);
        let mut evicted: usize = 0;
        proof {
            lemma_entries_len(old(self).entries());
            assert(all.len() <= cap / 16 + 1);
            assert(all.skip(0) =~= all.drop_last().push(new_e));
            assert(headers_of(all.take(0)) =~= Seq::<Seq<u8>>::empty());
            assert(self.skipped() =~= old(self).skipped().add(headers_of(all.take(0))));
        }
        while ((cap - ring_len(&self.inner)) as u128) < size
            invariant
                self.wf(),
                self.config == old(self).config,
                cap == self.config.capacity,
                size == entry_size(new_e),
                size <= cap,
                evicted <= old(self).entries().len(),
                all == old(self).entries().push(new_e),
                self.entries() == old(self).entries().skip(evicted as int),
                least_evictions(old(self).entries(), 0, cap - size) == least_evictions(
                    old(self).entries(),
                    evicted as int,
                    cap - size,
                ),
                all.len() <= cap / 16 + 1,
                self.entries().push(new_e) == all.skip(evicted as int),
                self.skipped() == old(self).skipped().add(headers_of(all.take(evicted as int))),
            decreases self.entries().len(),
        {
            proof {
                if self.entries@.len() == 0 {
                    assert(entries_bytes(self.entries@) =~= Seq::<u8>::empty());
                }
            }
            proof {
                lemma_entries_len(self.entries@);
                assert(self.entries@.len() > 0);
                assert(all.skip(evicted as int).len() == all.len() - evicted);
                assert(evicted < old(self).entries().len());
                assert(all.skip(evicted as int)[0] == all[evicted as int]);
                assert(self.entries@.push(new_e)[0] == self.entries@[0]);
                assert(all[evicted as int] == self.entries@[0]);
                assert(fill_of(old(self).entries().skip(evicted as int)) > cap - size);
            }
            self.evict_oldest();
            proof {
                assert(old(self).entries().skip(evicted + 1) =~= old(self).entries().skip(evicted as int).drop_first());
                assert(all.take(evicted + 1) =~= all.take(evicted as int).push(all[evicted as int]));
                assert(headers_of(all.take(evicted + 1)) =~= headers_of(all.take(evicted as int)).push(all[evicted as int].0));
                assert(all.skip(evicted + 1) =~= all.skip(evicted as int).drop_first());
                assert(self.entries().push(new_e) =~= all.skip(evicted + 1));
            }
            evicted = evicted + 1;
        }
        let ghost es = self.entries@;
        let ghost room = evicted as int;
        proof {
            assert(fill_of(old(self).entries().skip(evicted as int)) <= cap - size);
            assert(least_evictions(old(self).entries(), evicted as int, cap - size) == evicted);
        }
        let hl = u64_to_le(header.len() as u64);
        let pl = u64_to_le(buf.len() as u64);
        proof {
            lemma_entry_size(new_e);
        }
        ring_push(&mut self.inner, hl.as_slice());
        ring_push(&mut self.inner, header);
        ring_push(&mut self.inner, pl.as_slice());
        ring_push(&mut self.inner, buf);
        self.entries = Ghost(es.push(new_e));
        proof {
            assert(hl@.take(8) =~= hl@);
            assert(header@.take(header@.len() as int) =~= header@);
            assert(pl@.take(8) =~= pl@);
            assert(buf@.take(buf@.len() as int) =~= buf@);
            lemma_entries_bytes_push(es, new_e);
            assert(ring_bytes(self.inner) =~= entries_bytes(self.entries@));
            assert(self.entries() == all.skip(evicted as int));
        }
        if ring_len(&self.inner) > self.config.cleanup_high {
            while ring_len(&self.inner) > self.config.cleanup_low
                invariant
                    self.wf(),
                    self.config == old(self).config,
                    evicted <= all.len(),
                    room <= evicted,
                    least_evictions(all, room, self.config.cleanup_low as int) == least_evictions(
                        all,
                        evicted as int,
                        self.config.cleanup_low as int,
                    ),
                    all.len() <= self.config.capacity / 16 + 1,
                    self.entries() == all.skip(evicted as int),
                    self.skipped() == old(self).skipped().add(headers_of(all.take(evicted as int))),
                decreases self.entries().len(),
            {
                proof {
                    if self.entries@.len() == 0 {
                        assert(entries_bytes(self.entries@) =~= Seq::<u8>::empty());
                    }
                }
                proof {
                    lemma_entries_len(self.entries@);
                    assert(self.entries@.len() > 0);
                    assert(all.skip(evicted as int).len() == all.len() - evicted);
                    assert(all[evicted as int] == self.entries@[0]);
                    assert(self.entries@.len() <= self.config.capacity);
                    assert(fill_of(all.skip(evicted as int)) > self.config.cleanup_low);
                }
                self.evict_oldest();
                proof {
                    assert(all.take(evicted + 1) =~= all.take(evicted as int).push(all[evicted as int]));
                    assert(headers_of(all.take(evicted + 1)) =~= headers_of(all.take(evicted as int)).push(all[evicted as int].0));
                    assert(all.skip(evicted + 1) =~= all.skip(evicted as int).drop_first());
                }
                evicted = evicted + 1;
            }
            proof {
                assert(fill_of(all.skip(evicted as int)) <= self.config.cleanup_low);
            }
        }
        evicted
    }

    /// Hands out and forgets the headers of the evicted entries.
    pub fn take_failed_pages(&mut self) -> (r: Vec<Vec<u8>>)
        requires
            old(self).wf(),
        ensures
            final(self).wf(),
            r@.map_values(|v: Vec<u8>| v@) == old(self).skipped(),
            final(self).skipped() == Seq::<Seq<u8>>::empty(),
            final(self).entries() == old(self).entries(),
            final(self).config() == old(self).config(),
            final(self).fill() == old(self).fill(),
    {
        let mut r: Vec<Vec<u8>> = Vec::new();
        std::mem::swap(&mut r, &mut self.skipped_msr_pages_headers);
        assert(self.skipped() =~= Seq::<Seq<u8>>::empty());
        r
    }

    /// Takes the whole contents of the ring if it holds any bytes and either
    /// `take_everything` is set or the fill has reached the flush threshold;
    /// the ring is then empty. Otherwise nothing changes.
    pub fn try_take_buf(&mut self, take_everything: bool) -> (r: Option<(Vec<u8>, Vec<u8>)>)
        requires
            old(self).wf(),
        ensures
            final(self).wf(),
            final(self).config() == old(self).config(),
            final(self).skipped() == old(self).skipped(),
            r is Some <==> (old(self).fill() > 0 && (take_everything || old(self).fill()
                >= old(self).config().flush_threshold)),
            r is Some ==> (r->0).0@.add((r->0).1@) == entries_bytes(old(self).entries()),
            r is Some ==> (r->0).0@.len() + (r->0).1@.len() <= old(self).config().capacity,
            r is Some ==> final(self).entries() == Seq::<Entry>::empty(),
            r is Some ==> final(self).fill() == 0,
            r is None ==> final(self).entries() == old(self).entries(),
            r is None ==> final(self).fill() == old(self).fill(),
    {
        let len = ring_len(&self.inner);
        if len > 0 && (take_everything || len >= self.config.flush_threshold) {
            let slices = ring_slices(&self.inner);
            ring_clear(&mut self.inner);
            self.entries = Ghost(Seq::empty());
            assert(entries_bytes(self.entries@) =~= Seq::<u8>::empty());
            Some(slices)
        } else {
            None
        }
    }
}

} // verus!
