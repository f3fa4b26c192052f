//! A buffer of four 128-byte slices, each used as a stack of bytes: a push goes
//! whole into the first slice with room for it, a pop takes the last `n` bytes
//! of the first slice holding at least `n`.
use vstd::prelude::*;

verus! {

pub const SPLITS: usize = 4;

/// Index of the first slice (from `i` on) whose fill plus `n` stays within 127.
pub open spec fn first_with_room(counts: Seq<u8>, n: int, i: int) -> int
    decreases 4 - i,
{
    if i >= 4 {
        4
    } else if counts[i] + n <= 127 {
        i
    } else {
        first_with_room(counts, n, i + 1)
    }
}

/// Index of the first slice (from `i` on) holding at least `n` bytes.
pub open spec fn first_with_bytes(counts: Seq<u8>, n: int, i: int) -> int
    decreases 4 - i,
{
    if i >= 4 {
        4
    } else if counts[i] >= n {
        i
    } else {
        first_with_bytes(counts, n, i + 1)
    }
}

proof fn lemma_first_with_room_range(counts: Seq<u8>, n: int, i: int)
    requires
        0 <= i <= 4,
    ensures
        i <= first_with_room(counts, n, i) <= 4,
        first_with_room(counts, n, i) < 4 ==> counts[first_with_room(counts, n, i)] + n <= 127,
    decreases 4 - i,
{
    if i < 4 && counts[i] + n > 127 {
        lemma_first_with_room_range(counts, n, i + 1);
    }
}

pub struct GranularBuf {
    buf: Vec<u8>,
    counters: Vec<u8>,
}

impl GranularBuf {
    pub closed spec fn wf(&self) -> bool {
        &&& self.buf@.len() == 512
        &&& self.counters@.len() == 4
        &&& forall|i: int| 0 <= i < 4 ==> #[trigger] self.counters@[i] <= 127
    }

    /// Fill of each slice.
    pub closed spec fn counts(&self) -> Seq<u8> {
        self.counters@
    }

    /// The bytes of slice `i`, oldest first.
    pub closed spec fn slice(&self, i: int) -> Seq<u8> {
        self.buf@.subrange(128 * i, 128 * i + self.counters@[i])
    }

    pub fn new() -> (r: Self)
        ensures
            r.wf(),
            forall|i: int| 0 <= i < 4 ==> r.slice(i) == Seq::<u8>::empty(),
            r.counts() == seq![0u8, 0u8, 0u8, 0u8],
    {
        let mut buf: Vec<u8> = Vec::new();
        let mut i: usize = 0;
        while i < 512
            invariant
                i <= 512,
                buf@.len() == i,
            decreases 512 - i,
        {
            buf.push(0);
            i = i + 1;
        }
        let counters = vec![0u8, 0u8, 0u8, 0u8];
        let r = GranularBuf { buf, counters };
        assert(r.counts() =~= seq![0u8, 0u8, 0u8, 0u8]);
        assert forall|i: int| 0 <= i < 4 implies r.slice(i) == Seq::<u8>::empty() by {
            assert(r.slice(i) =~= Seq::<u8>::empty());
        }
        r
    }

    /// Pushes `val` whole onto the first slice with room for it.
    pub fn try_push(&mut self, val: &[u8]) -> (r: Option<()>)
        requires
            old(self).wf(),
        ensures
            final(self).wf(),
            ({
                let k = first_with_room(old(self).counts(), val@.len() as int, 0);
                &&& r is Some <==> k < 4
                &&& r is Some ==> final(self).slice(k) == old(self).slice(k).add(val@) && forall|
                    j: int,
                | 0 <= j < 4 && j != k ==> #[trigger] final(self).slice(j) == old(self).slice(j)
                &&& r is Some ==> final(self).counts() == old(self).counts().update(
                    k,
                    (old(self).counts()[k] + val@.len()) as u8,
                )
                &&& r is None ==> *final(self) == *old(self)
            }),
            final(self).counts().len() == 4,
            forall|j: int| 0 <= j < 4 ==> (#[trigger] final(self).slice(j)).len() == final(self).counts()[j],
    {
        if val.len() > 127 {
            proof {
                lemma_first_with_room_range(self.counters@, val@.len() as int, 0);
                assert(first_with_room(self.counters@, val@.len() as int, 0) == 4) by {
                    lemma_none_fits(self.counters@, val@.len() as int, 0);
                }
            }
            return None;
        }
        let n = val.len() as u8;
        let mut k: usize = 0;
        while k < SPLITS
            invariant
                self.wf(),
                *self == *old(self),
                k <= 4,
                n == val@.len(),
                n <= 127,
                first_with_room(self.counters@, n as int, 0) == first_with_room(self.counters@, n as int, k as int),
            decreases 4 - k,
        {
            let c = self.counters[k];
            if c <= 127 - n {
                let base = k * 128 + c as usize;
                let ghost old_buf = self.buf@;
                let mut j: usize = 0;
                while j < val.len()
                    invariant
                        k < 4,
                        c == self.counters@[k as int],
                        c + n <= 127,
                        base == k * 128 + c,
                        j <= val@.len(),
                        n == val@.len(),
                        self.buf@.len() == 512,
                        self.counters == old(self).counters,
                        old_buf == old(self).buf@,
                        forall|t: int| 0 <= t < 512 && !(base <= t < base + j) ==> #[trigger] self.buf@[t] == old_buf[t],
                        forall|t: int| 0 <= t < j ==> #[trigger] self.buf@[base + t] == val@[t],
                    decreases val@.len() - j,
                {
                    self.buf.set(base + j, val[j]);
                    j = j + 1;
                }
                self.counters.set(k, c + n);
                proof {
                    let ns = self.slice(k as int);
                    let os = old(self).slice(k as int);
                    assert forall|t: int| 0 <= t < ns.len() implies ns[t] == os.add(val@)[t] by {
                        if t < c {
                            assert(ns[t] == self.buf@[128 * k + t]);
                            assert(self.buf@[128 * k + t] == old_buf[128 * k + t]);
                        } else {
                            assert(ns[t] == self.buf@[base + (t - c)]);
                        }
                    }
                    assert(ns =~= os.add(val@));
                    assert forall|jj: int| 0 <= jj < 4 && jj != k implies #[trigger] self.slice(jj) == old(self).slice(jj) by {
                        assert(self.slice(jj) =~= old(self).slice(jj));
                    }
                }
                return Some(());
            }
            k = k + 1;
        }
        None
    }

    /// Pops the last `n` bytes of the first slice holding at least `n`.
    pub fn try_pop(&mut self, n: u8) -> (r: Option<Vec<u8>>)
        requires
            old(self).wf(),
        ensures
            final(self).wf(),
            ({
                let k = first_with_bytes(old(self).counts(), n as int, 0);
                let s = old(self).slice(k);
                &&& r is Some <==> k < 4
                &&& r is Some ==> (r->0)@ == s.skip(s.len() - n) && final(self).slice(k) == s.take(
                    s.len() - n,
                ) && forall|j: int|
                    0 <= j < 4 && j != k ==> #[trigger] final(self).slice(j) == old(self).slice(j)
                &&& r is Some ==> final(self).counts() == old(self).counts().update(
                    k,
                    (old(self).counts()[k] - n) as u8,
                )
                &&& r is None ==> *final(self) == *old(self)
            }),
            final(self).counts().len() == 4,
            forall|j: int| 0 <= j < 4 ==> (#[trigger] final(self).slice(j)).len() == final(self).counts()[j],
    {
        let mut k: usize = 0;
        while k < SPLITS
            invariant
                self.wf(),
                *self == *old(self),
                k <= 4,
                first_with_bytes(self.counters@, n as int, 0) == first_with_bytes(self.counters@, n as int, k as int),
            decreases 4 - k,
        {
            let c = self.counters[k];
            if c >= n {
                let start = k * 128 + (c - n) as usize;
                let mut res: Vec<u8> = Vec::new();
                let mut j: usize = 0;
                while j < n as usize
                    invariant
                        k < 4,
                        c >= n,
                        start == k * 128 + c - n,
                        c <= 127,
                        j <= n,
                        self.buf@.len() == 512,
                        res@ =~= self.buf@.subrange(start as int, start + j),
                    decreases n - j,
                {
                    res.push(self.buf[start + j]);
                    j = j + 1;
                }
                let ghost s = old(self).slice(k as int);
                self.counters.set(k, c - n);
                proof {
                    assert(res@ =~= s.skip(s.len() - n));
                    assert(self.slice(k as int) =~= s.take(s.len() - n));
                    assert forall|jj: int| 0 <= jj < 4 && jj != k implies #[trigger] self.slice(jj) == old(self).slice(jj) by {
                        assert(self.slice(jj) =~= old(self).slice(jj));
                    }
                }
                return Some(res);
            }
            k = k + 1;
        }
        None
    }
}

proof fn lemma_none_fits(counts: Seq<u8>, n: int, i: int)
    requires
        0 <= i <= 4,
        n > 127,
    ensures
        first_with_room(counts, n, i) == 4,
    decreases 4 - i,
{
    if i < 4 {
        lemma_none_fits(counts, n, i + 1);
    }
}

} // verus!
