//! The byte ring buffer of the `ringbuf` crate, as the store and the decoder use it.
use vstd::prelude::*;
use ringbuf::storage::Heap;
use ringbuf::traits::{Consumer, Observer, Producer};
use ringbuf::LocalRb;

verus! {

/// A byte ring of the `ringbuf` crate (single-threaded, heap storage). Verus does
/// not take the crate's storage trait as a bound, so the ring is held here.
#[verifier::external_body]
pub struct ByteRing {
    rb: LocalRb<Heap<u8>>,
}

/// The bytes held by a ring, oldest first.
pub uninterp spec fn ring_bytes(r: ByteRing) -> Seq<u8>;

/// The number of bytes a ring was made to hold.
pub uninterp spec fn ring_capacity(r: ByteRing) -> nat;

/// Relies on `LocalRb::<Heap<u8>>::new`: an empty ring of exactly `capacity`
/// places (it panics on a zero capacity).
#[verifier::external_body]
pub(crate) fn ring_new(capacity: usize) -> (r: ByteRing)
    requires
        capacity > 0,
    ensures
        ring_bytes(r) == Seq::<u8>::empty(),
        ring_capacity(r) == capacity,
{
    ByteRing { rb: LocalRb::<Heap<u8>>::new(capacity) }
}

/// Relies on `Observer::occupied_len`: the number of bytes held, never above the capacity.
#[verifier::external_body]
pub(crate) fn ring_len(rb: &ByteRing) -> (r: usize)
    ensures
        r == ring_bytes(*rb).len(),
        r <= ring_capacity(*rb),
{
    rb.rb.occupied_len()
}

/// Relies on `Producer::push_slice`: appends as many of `data` as there are
/// vacant places, in order, and returns how many.
#[verifier::external_body]
pub(crate) fn ring_push(rb: &mut ByteRing, data: &[u8]) -> (n: usize)
    ensures
        n as int == if data@.len() <= ring_capacity(*old(rb)) - ring_bytes(*old(rb)).len() {
            data@.len() as int
        } else {
            ring_capacity(*old(rb)) - ring_bytes(*old(rb)).len()
        },
        ring_bytes(*final(rb)) == ring_bytes(*old(rb)).add(data@.take(n as int)),
        ring_capacity(*final(rb)) == ring_capacity(*old(rb)),
{
    rb.rb.push_slice(data)
}

/// Relies on `Consumer::try_pop`: removes and returns the oldest byte, if any.
#[verifier::external_body]
pub(crate) fn ring_pop(rb: &mut ByteRing) -> (r: Option<u8>)
    ensures
        ring_bytes(*old(rb)).len() == 0 ==> r is None && ring_bytes(*final(rb)) == ring_bytes(
            *old(rb),
        ),
        ring_bytes(*old(rb)).len() > 0 ==> r == Some(ring_bytes(*old(rb))[0]) && ring_bytes(
            *final(rb),
        ) == ring_bytes(*old(rb)).drop_first(),
        ring_capacity(*final(rb)) == ring_capacity(*old(rb)),
{
    rb.rb.try_pop()
}

/// Relies on `Consumer::pop_slice`: removes the `n` oldest bytes into a buffer of
/// length `n` (all of them are there).
#[verifier::external_body]
pub(crate) fn ring_pop_n(rb: &mut ByteRing, n: usize) -> (r: Vec<u8>)
    requires
        n <= ring_bytes(*old(rb)).len(),
    ensures
        r@ == ring_bytes(*old(rb)).take(n as int),
        ring_bytes(*final(rb)) == ring_bytes(*old(rb)).skip(n as int),
        ring_capacity(*final(rb)) == ring_capacity(*old(rb)),
{
    let mut out = vec![0u8; n];
    rb.rb.pop_slice(&mut out);
    out
}

/// Relies on `Consumer::skip`: drops the `min(n, len)` oldest bytes and returns how many.
#[verifier::external_body]
pub(crate) fn ring_skip(rb: &mut ByteRing, n: usize) -> (r: usize)
    ensures
        r as int == if n <= ring_bytes(*old(rb)).len() {
            n as int
        } else {
            ring_bytes(*old(rb)).len() as int
        },
        ring_bytes(*final(rb)) == ring_bytes(*old(rb)).skip(r as int),
        ring_capacity(*final(rb)) == ring_capacity(*old(rb)),
{
    rb.rb.skip(n)
}

/// Relies on `Consumer::as_slices`: the two contiguous parts of the contents, in order.
#[verifier::external_body]
pub(crate) fn ring_slices(rb: &ByteRing) -> (r: (Vec<u8>, Vec<u8>))
    ensures
        r.0@.add(r.1@) == ring_bytes(*rb),
{
    let (a, b) = rb.rb.as_slices();
    (a.to_vec(), b.to_vec())
}

/// Relies on `Consumer::clear`: drops every byte held.
#[verifier::external_body]
pub(crate) fn ring_clear(rb: &mut ByteRing)
    ensures
        ring_bytes(*final(rb)) == Seq::<u8>::empty(),
        ring_capacity(*final(rb)) == ring_capacity(*old(rb)),
{
    rb.rb.clear();
}

} // verus!
