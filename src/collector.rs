//! A simpler recorder: each event is its id byte with the top bit set, the low
//! 16 bits of the timestamp, and the period delta in 7-bit groups (least
//! significant first, top bit clear).
use vstd::prelude::*;
use crate::id_mapping::IdStore;

verus! {

/// The 7-bit groups of `d`, least significant first; none for 0.
pub open spec fn groups7(d: nat) -> Seq<u8>
    decreases d,
{
    if d == 0 {
        Seq::empty()
    } else {
        seq![(d % 128) as u8].add(groups7(d / 128))
    }
}

/// The bytes of one event.
pub open spec fn collector_event_bytes(id: u8, now: u16, dif_pr: u64) -> Seq<u8> {
    seq![id | 0x80u8, (now / 256) as u8, (now % 256) as u8].add(groups7(dif_pr as nat))
}

pub struct ThreadLocalStorage {
    buf: Vec<u8>,
    id_store: IdStore,
}

impl ThreadLocalStorage {
    pub closed spec fn bytes(&self) -> Seq<u8> {
        self.buf@
    }

    pub closed spec fn ids(&self) -> Map<u32, u8> {
        self.id_store.ids()
    }

    pub closed spec fn last_id(&self) -> u8 {
        self.id_store.last_id()
    }

    pub closed spec fn wf(&self) -> bool {
        self.id_store.wf()
    }

    pub fn new() -> (r: Self)
        ensures
            r.wf(),
            r.bytes() == Seq::<u8>::empty(),
            r.ids() == Map::<u32, u8>::empty(),
            r.last_id() == 0,
    {
        ThreadLocalStorage { buf: Vec::new(), id_store: IdStore::new() }
    }

    /// Records an event named `string` (hash `hash`) with the low 16 bits of its
    /// timestamp `now` and its period delta `dif_pr`.
    pub fn event(&mut self, hash: u32, string: &str, dif_pr: u64, now: u16)
        requires
            old(self).wf(),
            old(self).ids().contains_key(hash) || old(self).last_id() < 255,
        ensures
            final(self).wf(),
            final(self).ids().contains_key(hash),
            final(self).bytes() == old(self).bytes().add(
                collector_event_bytes(final(self).ids()[hash], now, dif_pr),
            ),
            old(self).ids().contains_key(hash) ==> final(self).ids() == old(self).ids(),
            !old(self).ids().contains_key(hash) ==> final(self).ids() == old(self).ids().insert(
                hash,
                (old(self).last_id() + 1) as u8,
            ),
    {
        let v = self.id_store.insert_and_get_id(hash, string);
        let ghost start = self.buf@;
        let ghost store_after = self.id_store;
        self.buf.push(v | 0x80);
        self.buf.push((now / 256) as u8);
        self.buf.push((now % 256) as u8);
        let mut d = dif_pr;
        while d > 0
            invariant
                self.buf@.add(groups7(d as nat)) == start.add(collector_event_bytes(v, now, dif_pr)),
                self.id_store == store_after,
            decreases d,
        {
            proof {
                assert(groups7(d as nat) =~= seq![(d % 128) as u8].add(groups7((d / 128) as nat)));
                assert(self.buf@.push((d % 128) as u8).add(groups7((d / 128) as nat)) =~= self.buf@.add(
                    groups7(d as nat),
                ));
            }
            self.buf.push((d % 128) as u8);
            d = d / 128;
        }
        proof {
            assert(self.buf@ =~= self.buf@.add(groups7(0)));
        }
        proof {
            assert(start.add(seq![v | 0x80u8, (now / 256) as u8, (now % 256) as u8]).add(groups7(dif_pr as nat)) =~= start.add(collector_event_bytes(v, now, dif_pr)));
        }
    }

    /// Hands out the recorded bytes and starts over.
    pub fn flush(&mut self) -> (r: Vec<u8>)
        ensures
            r@ == old(self).bytes(),
            final(self).bytes() == Seq::<u8>::empty(),
            final(self).ids() == old(self).ids(),
            final(self).last_id() == old(self).last_id(),
            old(self).wf() ==> final(self).wf(),
    {
        let mut out: Vec<u8> = Vec::new();
        std::mem::swap(&mut out, &mut self.buf);
        out
    }
}

} // verus!
