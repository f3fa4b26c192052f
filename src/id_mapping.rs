//! Per-thread dictionary from a 32-bit name hash and an event kind to an 8-bit local id.
//!
//! Lookup goes through a 256-slot open-addressing table with linear probing; the
//! ordered list of `(name, kind)` pairs is kept beside it, so that an id is the
//! index of its pair in that list.
use vstd::prelude::*;

verus! {

/// Kind of a recorded event. A range end remembers the local id of its start's name.
#[derive(Clone, Copy, Debug, PartialEq, Eq, Structural)]
pub enum EventType {
    Instant,
    RangeStart,
    RangeEnd(u8),
}

impl EventType {
    /// The small offset folded into the lookup key, so that one name used as two
    /// kinds takes two slots.
    pub open spec fn offset(self) -> u32 {
        match self {
            EventType::Instant => 0,
            EventType::RangeStart => 1,
            EventType::RangeEnd(_) => 2,
        }
    }

    pub fn get_offs(&self) -> (r: u32)
        ensures
            r == self.offset(),
    {
        match self {
            EventType::Instant => 0,
            EventType::RangeStart => 1,
            EventType::RangeEnd(_) => 2,
        }
    }
}

/// The lookup key of a `(hash, kind)` pair: the hash plus the kind's offset, wrapping.
pub open spec fn lookup_key(hash: u32, kind: EventType) -> u32 {
    vstd::wrapping::u32_specs::wrapping_add(hash, kind.offset())
}

/// Home slot of a key: `(key * 0x9E3779B1) mod 256`.
pub open spec fn home_slot(key: u32) -> int {
    (key as int * 2654435761) % 256
}

/// Number of occupied slots among the first `n`.
pub open spec fn used_count(keys: Seq<Option<u32>>, n: int) -> nat
    decreases n,
{
    if n <= 0 {
        0
    } else {
        used_count(keys, n - 1) + if keys[n - 1] is Some {
            1nat
        } else {
            0nat
        }
    }
}

/// Distance from slot `from` forward to slot `to`, going round the table.
pub open spec fn probe_dist(from: int, to: int) -> int {
    (to - from + 256) % 256
}

/// The slot `d` steps after slot `h`, going round the table.
#[verifier::opaque]
pub open spec fn slot(h: int, d: int) -> int {
    (h + d) % 256
}

proof fn lemma_slot_step(h: int, n: int)
    requires
        0 <= h < 256,
        0 <= n < 256,
    ensures
        slot(h, n + 1) == (slot(h, n) + 1) % 256,
        0 <= slot(h, n) < 256,
{
    reveal(slot);
}

proof fn lemma_slot_range(h: int, d: int)
    requires
        0 <= h < 256,
        0 <= d,
    ensures
        0 <= slot(h, d) < 256,
{
    reveal(slot);
}

proof fn lemma_slot_start(h: int)
    requires
        0 <= h < 256,
    ensures
        slot(h, 0) == h,
{
    reveal(slot);
}

proof fn lemma_slot_dist(h: int, i: int)
    requires
        0 <= h < 256,
        0 <= i < 256,
    ensures
        slot(h, probe_dist(h, i)) == i,
        0 <= probe_dist(h, i) < 256,
{
    reveal(slot);
}

proof fn lemma_home_slot_range(k: u32)
    ensures
        0 <= home_slot(k) < 256,
{
}

/// Fixed-capacity (256 slots) map from `u32` to `u8` with linear probing.
struct U32U8Map {
    keys: Vec<Option<u32>>,
    values: Vec<Option<u8>>,
}

impl U32U8Map {
    /// Slots are all there; occupied key slots carry values; keys are unique; and
    /// every slot between a key's home slot and its own slot is occupied.
    spec fn wf(&self) -> bool {
        &&& self.keys@.len() == 256
        &&& self.values@.len() == 256
        &&& forall|i: int| 0 <= i < 256 ==> (#[trigger] self.keys@[i] is Some) == (
        self.values@[i] is Some)
        &&& forall|i: int, j: int|
            0 <= i < 256 && 0 <= j < 256 && #[trigger] self.keys@[i] is Some && #[trigger] self.keys@[j]
                is Some && self.keys@[i] == self.keys@[j] ==> i == j
        &&& forall|i: int, d: int|
            #![trigger self.keys@[i], self.probe_slot(i, d)]
            0 <= i < 256 && self.keys@[i] is Some && 0 <= d < probe_dist(
                home_slot(self.keys@[i]->0),
                i,
            ) ==> self.keys@[self.probe_slot(i, d)] is Some
    }

    /// The slot `d` steps after the home slot of the key held in slot `i`.
    spec fn probe_slot(&self, i: int, d: int) -> int {
        slot(home_slot(self.keys@[i]->0), d)
    }

    spec fn has_key_at(&self, k: u32, i: int) -> bool {
        0 <= i < 256 && self.keys@[i] == Some(k)
    }

    spec fn view(&self) -> Map<u32, u8> {
        Map::new(
            |k: u32| exists|i: int| self.has_key_at(k, i),
            |k: u32| self.values@[choose|i: int| self.has_key_at(k, i)]->0,
        )
    }

    /// Number of occupied slots.
    spec fn used(&self) -> nat {
        used_count(self.keys@, 256)
    }

    /// Probing from the home slot of `key` met `n` slots holding other keys and then
    /// an empty slot (or went round the whole table): `key` is absent.
    proof fn lemma_absent(&self, key: u32, n: int)
        requires
            self.wf(),
            0 <= n <= 256,
            n < 256 ==> self.keys@[slot(home_slot(key), n)] is None,
            forall|d: int|
                0 <= d < n ==> #[trigger] self.keys@[slot(home_slot(key), d)] is Some
                    && self.keys@[slot(home_slot(key), d)] != Some(key),
        ensures
            !self@.contains_key(key),
    {
        let h = home_slot(key);
        if self@.contains_key(key) {
            let i = choose|i: int| self.has_key_at(key, i);
            let dd = probe_dist(h, i);
            lemma_slot_dist(h, i);
            if dd < n {
                assert(self.keys@[slot(h, dd)] != Some(key));
            } else if dd > n {
                assert(self.keys@[self.probe_slot(i, n)] is Some);
            }
        }
    }

    fn new() -> (r: Self)
        ensures
            r.wf(),
            r@ == Map::<u32, u8>::empty(),
            r.used() == 0,
    {
        let mut keys: Vec<Option<u32>> = Vec::new();
        let mut values: Vec<Option<u8>> = Vec::new();
        let mut i: usize = 0;
        while i < 256
            invariant
                i <= 256,
                keys@.len() == i,
                values@.len() == i,
                forall|j: int| 0 <= j < i ==> keys@[j] is None && values@[j] is None,
            decreases 256 - i,
        {
            keys.push(None);
            values.push(None);
            i = i + 1;
        }
        let r = U32U8Map { keys, values };
        proof {
            assert(r@ =~= Map::<u32, u8>::empty());
            lemma_used_count_none(r.keys@, 256);
        }
        r
    }

    fn hash(&self, key: u32) -> (r: usize)
        ensures
            r as int == home_slot(key),
            r < 256,
    {
        let k: u64 = key as u64;
        assert(k * 2654435761 <= 0xffff_ffff * 2654435761) by (nonlinear_arith)
            requires
                k <= 0xffff_ffff,
        ;
        ((k * 2654435761u64) % 256) as usize
    }

    fn get(&self, key: u32) -> (r: Option<u8>)
        requires
            self.wf(),
        ensures
            r == (if self@.contains_key(key) {
                Some(self@[key])
            } else {
                None
            }),
    {
        let h = self.hash(key);
        let mut idx: usize = h;
        let mut n: usize = 0;
        proof {
            lemma_slot_start(h as int);
        }
        while n < 256
            invariant
                self.wf(),
                n <= 256,
                h as int == home_slot(key),
                h < 256,
                n < 256 ==> idx as int == slot(h as int, n as int),
                forall|d: int|
                    0 <= d < n ==> #[trigger] self.keys@[slot(h as int, d)] is Some
                        && self.keys@[slot(h as int, d)] != Some(key),
            decreases 256 - n,
        {
            proof {
                lemma_slot_step(h as int, n as int);
            }
            match self.keys[idx] {
                Some(existing) => {
                    if existing == key {
                        proof {
                            assert(self.has_key_at(key, idx as int));
                            let c = choose|i: int| self.has_key_at(key, i);
                            assert(c == idx);
                        }
                        return self.values[idx];
                    }
                },
                None => {
                    proof {
                        self.lemma_absent(key, n as int);
                    }
                    return None;
                },
            }
            idx = ((idx as u16 + 1) % 256) as usize;
            n = n + 1;
        }
        proof {
            self.lemma_absent(key, 256);
        }
        None
    }

    fn insert(&mut self, key: u32, value: u8) -> (r: Result<(), &'static str>)
        requires
            old(self).wf(),
        ensures
            final(self).wf(),
            r is Ok <==> (old(self)@.contains_key(key) || old(self).used() < 256),
            r is Ok ==> final(self)@ == old(self)@.insert(key, value),
            r is Ok ==> final(self).used() == old(self).used() + if old(self)@.contains_key(key) {
                0nat
            } else {
                1nat
            },
            r is Err ==> *final(self) == *old(self),
    {
        let h = self.hash(key);
        let mut idx: usize = h;
        let mut n: usize = 0;
        proof {
            lemma_slot_start(h as int);
        }
        while n < 256
            invariant
                *self == *old(self),
                self.wf(),
                n <= 256,
                h as int == home_slot(key),
                h < 256,
                n < 256 ==> idx as int == slot(h as int, n as int),
                forall|d: int|
                    0 <= d < n ==> #[trigger] self.keys@[slot(h as int, d)] is Some
                        && self.keys@[slot(h as int, d)] != Some(key),
            decreases 256 - n,
        {
            proof {
                lemma_slot_step(h as int, n as int);
            }
            let slot_key = self.keys[idx];
            if slot_key.is_none() || slot_key == Some(key) {
                let ghost old_self = *self;
                proof {
                    if slot_key.is_none() {
                        old_self.lemma_absent(key, n as int);
                        lemma_used_count_lt(old_self.keys@, idx as int, 256);
                    } else {
                        assert(old_self.has_key_at(key, idx as int));
                    }
                }
                self.keys.set(idx, Some(key));
                self.values.set(idx, Some(value));
                proof {
                    self.lemma_insert_at(old_self, key, value, idx as int, n as int);
                }
                return Ok(());
            }
            idx = ((idx as u16 + 1) % 256) as usize;
            n = n + 1;
        }
        proof {
            assert forall|i: int| 0 <= i < 256 implies #[trigger] self.keys@[i] is Some by {
                lemma_slot_dist(h as int, i);
                assert(self.keys@[slot(h as int, probe_dist(h as int, i))] is Some);
            }
            lemma_used_count_full(self.keys@, 256);
            self.lemma_absent(key, 256);
        }
        Err("Map is full")
    }

    /// Writing `key` into slot `idx`, the first slot of its probe sequence that was
    /// empty or held `key`, keeps the table well formed.
    proof fn lemma_insert_at(&self, old_self: Self, key: u32, value: u8, idx: int, n: int)
        requires
            old_self.wf(),
            0 <= n < 256,
            0 <= idx < 256,
            idx == slot(home_slot(key), n),
            old_self.keys@[idx] is None || old_self.keys@[idx] == Some(key),
            old_self.keys@[idx] is None ==> !old_self@.contains_key(key),
            forall|d: int|
                0 <= d < n ==> #[trigger] old_self.keys@[slot(home_slot(key), d)] is Some
                    && old_self.keys@[slot(home_slot(key), d)] != Some(key),
            self.keys@ == old_self.keys@.update(idx, Some(key)),
            self.values@ == old_self.values@.update(idx, Some(value)),
        ensures
            self.wf(),
            self@ == old_self@.insert(key, value),
            self.used() == old_self.used() + if old_self@.contains_key(key) {
                0nat
            } else {
                1nat
            },
    {
        let h = home_slot(key);
        lemma_used_count_set(old_self.keys@, idx, Some(key), 256);
        if old_self.keys@[idx] is Some {
            assert(old_self.has_key_at(key, idx));
        }
        assert forall|i: int, d: int|
            #![trigger self.keys@[i], self.probe_slot(i, d)]
            0 <= i < 256 && self.keys@[i] is Some && 0 <= d < probe_dist(
                home_slot(self.keys@[i]->0),
                i,
            ) implies self.keys@[self.probe_slot(i, d)] is Some by {
            if i == idx {
                lemma_home_slot_range(key);
                assert(self.keys@[i]->0 == key);
                assert(probe_dist(h, i) == n) by {
                    reveal(slot);
                }
                assert(self.probe_slot(i, d) == slot(h, d));
                lemma_slot_range(h, d);
                assert(old_self.keys@[slot(h, d)] is Some);
                if slot(h, d) != idx {
                    assert(self.keys@[slot(h, d)] == old_self.keys@[slot(h, d)]);
                }
            } else {
                assert(old_self.keys@[i] is Some);
                lemma_home_slot_range(old_self.keys@[i]->0);
                lemma_slot_range(home_slot(old_self.keys@[i]->0), d);
                assert(old_self.keys@[old_self.probe_slot(i, d)] is Some);
            }
        }
        assert forall|i: int, j: int|
            0 <= i < 256 && 0 <= j < 256 && #[trigger] self.keys@[i] is Some
                && #[trigger] self.keys@[j] is Some && self.keys@[i] == self.keys@[j] implies i
            == j by {
            if i != j && (i == idx || j == idx) {
                let o = if i == idx {
                    j
                } else {
                    i
                };
                assert(old_self.keys@[o] == Some(key));
                assert(old_self.has_key_at(key, o));
            }
        }
        assert(self@ =~= old_self@.insert(key, value)) by {
            assert forall|k: u32| #[trigger] self@.contains_key(k) implies old_self@.insert(
                key,
                value,
            ).contains_key(k) && self@[k] == old_self@.insert(key, value)[k] by {
                let c = choose|i: int| self.has_key_at(k, i);
                if k != key {
                    assert(old_self.has_key_at(k, c));
                    let c2 = choose|i: int| old_self.has_key_at(k, i);
                    assert(self.has_key_at(k, c2));
                } else {
                    assert(self.has_key_at(key, idx));
                }
            }
            assert forall|k: u32| #[trigger] old_self@.insert(key, value).contains_key(
                k,
            ) implies self@.contains_key(k) by {
                if k == key {
                    assert(self.has_key_at(key, idx));
                } else {
                    let c2 = choose|i: int| old_self.has_key_at(k, i);
                    assert(self.has_key_at(k, c2));
                }
            }
        }
    }
}

/// The ordered list of `(name, kind)` pairs of one thread: the index of a pair is
/// its local id. This is what a packet header carries.
pub struct IdStoreMap {
    pub tags: Vec<(String, EventType)>,
}

/// A pair of the list as values: the name's characters and the kind.
pub open spec fn tag_view(t: (String, EventType)) -> (Seq<char>, EventType) {
    (t.0@, t.1)
}

impl View for IdStoreMap {
    type V = Seq<(Seq<char>, EventType)>;

    open spec fn view(&self) -> Seq<(Seq<char>, EventType)> {
        self.tags@.map_values(|t: (String, EventType)| tag_view(t))
    }
}

impl IdStoreMap {
    pub fn new() -> (r: Self)
        ensures
            r@ == Seq::<(Seq<char>, EventType)>::empty(),
    {
        let r = IdStoreMap { tags: Vec::new() };
        assert(r@ =~= Seq::<(Seq<char>, EventType)>::empty());
        r
    }

    /// A copy of the list, pair by pair.
    pub fn snapshot(&self) -> (r: IdStoreMap)
        ensures
            r@ == self@,
    {
        let mut tags: Vec<(String, EventType)> = Vec::new();
        let mut i: usize = 0;
        while i < self.tags.len()
            invariant
                i <= self.tags@.len(),
                tags@.len() == i,
                forall|j: int| 0 <= j < i ==> tag_view(#[trigger] tags@[j]) == tag_view(self.tags@[j]),
            decreases self.tags@.len() - i,
        {
            let name = self.tags[i].0.clone();
            let kind = self.tags[i].1;
            tags.push((name, kind));
            i = i + 1;
        }
        let r = IdStoreMap { tags };
        assert(r@ =~= self@);
        r
    }

    /// Number of pairs.
    pub fn len(&self) -> (r: usize)
        ensures
            r == self@.len(),
    {
        self.tags.len()
    }
}

/// The dictionary of one thread: the lookup table and the ordered pair list.
pub struct IdStoreRepr {
    id_map: U32U8Map,
    tags_store: IdStoreMap,
}

impl IdStoreRepr {
    /// Lookup keys with the id given to each.
    pub closed spec fn ids(&self) -> Map<u32, u8> {
        self.id_map@
    }

    /// The pairs in order of first use.
    pub closed spec fn tags(&self) -> Seq<(Seq<char>, EventType)> {
        self.tags_store@
    }

    /// At most 256 pairs, one table slot each; every id indexes the pair list.
    pub closed spec fn wf(&self) -> bool {
        &&& self.id_map.wf()
        &&& self.id_map.used() == self.tags_store.tags@.len()
        &&& self.tags_store.tags@.len() <= 256
        &&& forall|k: u32| #[trigger] self.id_map@.contains_key(k) ==> (self.id_map@[k] as int)
            < self.tags_store.tags@.len()
    }

    pub fn new() -> (r: Self)
        ensures
            r.wf(),
            r.ids() == Map::<u32, u8>::empty(),
            r.tags() == Seq::<(Seq<char>, EventType)>::empty(),
    {
        let r = IdStoreRepr { id_map: U32U8Map::new(), tags_store: IdStoreMap::new() };
        assert(r.tags_store.tags@.len() == r.tags_store@.len());
        r
    }

    /// The local id of `(hash, event_type)`. On first sight the pair gets the next
    /// id (the current number of pairs) and `(tag, event_type)` is appended to the
    /// list; afterwards the same id comes back and nothing changes.
    pub fn insert_and_get_id(&mut self, hash: u32, tag: &str, event_type: EventType) -> (r: u8)
        requires
            old(self).wf(),
            old(self).ids().contains_key(lookup_key(hash, event_type)) || old(self).tags().len()
                < 256,
        ensures
            final(self).wf(),
            final(self).ids().contains_key(lookup_key(hash, event_type)),
            final(self).ids()[lookup_key(hash, event_type)] == r,
            (r as int) < final(self).tags().len(),
            old(self).ids().contains_key(lookup_key(hash, event_type)) ==> {
                &&& r == old(self).ids()[lookup_key(hash, event_type)]
                &&& final(self).ids() == old(self).ids()
                &&& final(self).tags() == old(self).tags()
            },
            !old(self).ids().contains_key(lookup_key(hash, event_type)) ==> {
                &&& r as int == old(self).tags().len()
                &&& final(self).ids() == old(self).ids().insert(lookup_key(hash, event_type), r)
                &&& final(self).tags() == old(self).tags().push((tag@, event_type))
            },
    {
        let offs = event_type.get_offs();
        let key = hash.wrapping_add(offs);
        match self.id_map.get(key) {
            Some(v) => v,
            None => {
                let id = self.tags_store.tags.len() as u8;
                let res = self.id_map.insert(key, id);
                match res {
                    Ok(()) => {},
                    Err(_) => {
                        assert(false);
                    },
                }
                let ghost old_tags = self.tags_store@;
                self.tags_store.tags.push((tag.to_owned(), event_type));
                proof {
                    assert(self.tags_store@ =~= old_tags.push((tag@, event_type)));
                    assert forall|k: u32| #[trigger] self.id_map@.contains_key(k) implies (
                    self.id_map@[k] as int) < self.tags_store.tags@.len() by {
                        if k != key {
                            assert(old(self).id_map@.contains_key(k));
                        }
                    }
                }
                id
            },
        }
    }

    /// Whether `(hash, event_type)` can get an id: it has one, or there is room.
    pub fn can_intern(&self, hash: u32, event_type: EventType) -> (r: bool)
        requires
            self.wf(),
        ensures
            r == (self.ids().contains_key(lookup_key(hash, event_type)) || self.tags().len() < 256),
    {
        let key = hash.wrapping_add(event_type.get_offs());
        self.id_map.get(key).is_some() || self.tags_store.tags.len() < 256
    }

    /// The pair list as it stands.
    pub fn tags_snapshot(&self) -> (r: IdStoreMap)
        ensures
            r@ == self.tags(),
    {
        self.tags_store.snapshot()
    }
}

/// A dictionary from 32-bit hashes to ids numbered from 1, in order of first use.
pub struct IdStore {
    id_map: U32U8Map,
    last_id: u8,
}

impl IdStore {
    /// Hashes with their ids.
    pub closed spec fn ids(&self) -> Map<u32, u8> {
        self.id_map@
    }

    /// The id given last (0 before the first).
    pub closed spec fn last_id(&self) -> u8 {
        self.last_id
    }

    pub closed spec fn wf(&self) -> bool {
        &&& self.id_map.wf()
        &&& self.id_map.used() == self.last_id
        &&& forall|k: u32| #[trigger] self.id_map@.contains_key(k) ==> 1 <= self.id_map@[k] <= self.last_id
    }

    pub fn new() -> (r: Self)
        ensures
            r.wf(),
            r.ids() == Map::<u32, u8>::empty(),
            r.last_id() == 0,
    {
        IdStore { id_map: U32U8Map::new(), last_id: 0 }
    }

    /// The id of `hash`: on first sight the next one (ids count from 1),
    /// afterwards the same.
    pub fn insert_and_get_id(&mut self, hash: u32, tag: &str) -> (r: u8)
        requires
            old(self).wf(),
            old(self).ids().contains_key(hash) || old(self).last_id() < 255,
        ensures
            final(self).wf(),
            final(self).ids().contains_key(hash),
            final(self).ids()[hash] == r,
            old(self).ids().contains_key(hash) ==> r == old(self).ids()[hash] && *final(self) == *old(self),
            !old(self).ids().contains_key(hash) ==> r == old(self).last_id() + 1 && final(self).last_id() == r
                && final(self).ids() == old(self).ids().insert(hash, r),
    {
        match self.id_map.get(hash) {
            Some(v) => v,
            None => {
                self.last_id = self.last_id + 1;
                let res = self.id_map.insert(hash, self.last_id);
                match res {
                    Ok(()) => {},
                    Err(_) => {
                        assert(false);
                    },
                }
                proof {
                    assert forall|k: u32| #[trigger] self.id_map@.contains_key(k) implies 1 <= self.id_map@[k] <= self.last_id by {
                        if k != hash {
                            assert(old(self).id_map@.contains_key(k));
                        }
                    }
                }
                self.last_id
            },
        }
    }
}

pub proof fn lemma_used_count_none(keys: Seq<Option<u32>>, n: int)
    requires
        0 <= n <= keys.len(),
        forall|j: int| 0 <= j < n ==> keys[j] is None,
    ensures
        used_count(keys, n) == 0,
    decreases n,
{
    if n > 0 {
        lemma_used_count_none(keys, n - 1);
    }
}

pub proof fn lemma_used_count_le(keys: Seq<Option<u32>>, n: int)
    requires
        0 <= n,
    ensures
        used_count(keys, n) <= n,
    decreases n,
{
    if n > 0 {
        lemma_used_count_le(keys, n - 1);
    }
}

pub proof fn lemma_used_count_lt(keys: Seq<Option<u32>>, j: int, n: int)
    requires
        0 <= j < n <= keys.len(),
        keys[j] is None,
    ensures
        used_count(keys, n) < n,
    decreases n,
{
    if j < n - 1 {
        lemma_used_count_lt(keys, j, n - 1);
    } else {
        lemma_used_count_le(keys, n - 1);
    }
}

pub proof fn lemma_used_count_full(keys: Seq<Option<u32>>, n: int)
    requires
        0 <= n <= keys.len(),
        forall|j: int| 0 <= j < n ==> #[trigger] keys[j] is Some,
    ensures
        used_count(keys, n) == n,
    decreases n,
{
    if n > 0 {
        lemma_used_count_full(keys, n - 1);
    }
}

pub proof fn lemma_used_count_set(keys: Seq<Option<u32>>, i: int, v: Option<u32>, n: int)
    requires
        0 <= i < keys.len(),
        0 <= n <= keys.len(),
        v is Some,
    ensures
        used_count(keys.update(i, v), n) == used_count(keys, n) + if i < n && keys[i] is None {
            1nat
        } else {
            0nat
        },
    decreases n,
{
    if n > 0 {
        lemma_used_count_set(keys, i, v, n - 1);
    }
}

} // verus!
