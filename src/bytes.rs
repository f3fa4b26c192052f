//! Little-endian integer encodings used by the event payload and the wire format.
use vstd::prelude::*;

verus! {

/// Number of bytes needed to write `v` without its leading zero bytes.
pub open spec fn byte_len(v: nat) -> nat
    decreases v,
{
    if v == 0 {
        0
    } else {
        1 + byte_len(v / 256)
    }
}

/// The lowest `n` bytes of `v`, least significant first.
pub open spec fn le_bytes(v: nat, n: nat) -> Seq<u8>
    decreases n,
{
    if n == 0 {
        Seq::empty()
    } else {
        seq![(v % 256) as u8].add(le_bytes(v / 256, (n - 1) as nat))
    }
}

/// The value of a little-endian byte string.
pub open spec fn le_value(s: Seq<u8>) -> nat
    decreases s.len(),
{
    if s.len() == 0 {
        0
    } else {
        s[0] as nat + 256 * le_value(s.drop_first())
    }
}

/// The shortest little-endian encoding of `v`.
pub open spec fn min_le_bytes(v: nat) -> Seq<u8> {
    le_bytes(v, byte_len(v))
}

pub open spec fn pow256(n: nat) -> nat
    decreases n,
{
    if n == 0 {
        1
    } else {
        256 * pow256((n - 1) as nat)
    }
}

/// Eight little-endian bytes of a `u64`.
pub open spec fn u64_le(v: u64) -> Seq<u8> {
    le_bytes(v as nat, 8)
}

pub proof fn lemma_le_bytes_len(v: nat, n: nat)
    ensures
        le_bytes(v, n).len() == n,
    decreases n,
{
    if n > 0 {
        lemma_le_bytes_len(v / 256, (n - 1) as nat);
    }
}

/// Decoding the shortest encoding gives the value back.
pub proof fn lemma_min_le_round_trip(v: nat)
    ensures
        le_value(min_le_bytes(v)) == v,
        min_le_bytes(v).len() == byte_len(v),
    decreases v,
{
    lemma_le_bytes_len(v, byte_len(v));
    if v != 0 {
        lemma_min_le_round_trip(v / 256);
        let s = min_le_bytes(v);
        assert(s.drop_first() =~= min_le_bytes(v / 256));
    }
}

pub proof fn lemma_le_round_trip(v: nat, n: nat)
    requires
        v < pow256(n),
    ensures
        le_value(le_bytes(v, n)) == v,
    decreases n,
{
    lemma_le_bytes_len(v, n);
    if n > 0 {
        assert(v / 256 < pow256((n - 1) as nat));
        lemma_le_round_trip(v / 256, (n - 1) as nat);
        assert(le_bytes(v, n).drop_first() =~= le_bytes(v / 256, (n - 1) as nat));
    }
}

pub proof fn lemma_le_value_bound(s: Seq<u8>)
    ensures
        le_value(s) < pow256(s.len()),
    decreases s.len(),
{
    if s.len() > 0 {
        lemma_le_value_bound(s.drop_first());
    }
}

pub proof fn lemma_byte_len_bound(v: nat, k: nat)
    requires
        v < pow256(k),
    ensures
        byte_len(v) <= k,
    decreases k,
{
    if v != 0 {
        assert(k > 0);
        lemma_byte_len_bound(v / 256, (k - 1) as nat);
    }
}

pub proof fn lemma_pow256_8()
    ensures
        pow256(8) == 0x1_0000_0000_0000_0000,
{
    reveal_with_fuel(pow256, 9);
}

/// The shortest little-endian encoding of `v`, and its length (at most 8).
pub fn min_le_encode(v: u64) -> (r: Vec<u8>)
    ensures
        r@ == min_le_bytes(v as nat),
        r@.len() == byte_len(v as nat),
        r@.len() <= 8,
{
    proof {
        lemma_pow256_8();
        lemma_byte_len_bound(v as nat, 8);
        lemma_le_bytes_len(v as nat, byte_len(v as nat));
    }
    let mut r: Vec<u8> = Vec::new();
    let mut x: u64 = v;
    while x > 0
        invariant
            r@.add(min_le_bytes(x as nat)) == min_le_bytes(v as nat),
            r@.len() + byte_len(x as nat) == byte_len(v as nat),
        decreases x,
    {
        proof {
            assert(min_le_bytes(x as nat) =~= seq![(x % 256) as u8].add(min_le_bytes((x / 256) as nat)));
            assert(r@.push((x % 256) as u8).add(min_le_bytes((x / 256) as nat)) =~= r@.add(
                min_le_bytes(x as nat),
            ));
        }
        r.push((x % 256) as u8);
        x = x / 256;
    }
    assert(r@ =~= r@.add(min_le_bytes(0)));
    r
}

/// Eight little-endian bytes of `v`.
pub fn u64_to_le(v: u64) -> (r: Vec<u8>)
    ensures
        r@ == u64_le(v),
        r@.len() == 8,
{
    proof {
        lemma_le_bytes_len(v as nat, 8);
    }
    let mut r: Vec<u8> = Vec::new();
    let mut x: u64 = v;
    let mut i: usize = 0;
    while i < 8
        invariant
            i <= 8,
            r@.len() == i,
            r@.add(le_bytes(x as nat, (8 - i) as nat)) == u64_le(v),
        decreases 8 - i,
    {
        proof {
            assert(le_bytes(x as nat, (8 - i) as nat) =~= seq![(x % 256) as u8].add(
                le_bytes((x / 256) as nat, (8 - i - 1) as nat),
            ));
            assert(r@.push((x % 256) as u8).add(le_bytes((x / 256) as nat, (8 - i - 1) as nat))
                =~= r@.add(le_bytes(x as nat, (8 - i) as nat)));
        }
        r.push((x % 256) as u8);
        x = x / 256;
        i = i + 1;
    }
    assert(r@ =~= r@.add(le_bytes(x as nat, 0)));
    r
}

/// The value of a little-endian byte string, reduced modulo 2^64 (bytes past the eighth fall off).
pub open spec fn le_value_u64(s: Seq<u8>) -> u64 {
    (le_value(s) % 0x1_0000_0000_0000_0000) as u64
}

/// Reads a little-endian byte string as a `u64`; bytes past the eighth do not count.
pub fn le_to_u64(s: &[u8]) -> (r: u64)
    ensures
        r == le_value_u64(s@),
        s@.len() <= 8 ==> r as nat == le_value(s@),
{
    let mut v: u64 = 0;
    let mut i: usize = s.len();
    while i > 0
        invariant
            i <= s@.len(),
            v as nat == le_value(s@.skip(i as int)) % 0x1_0000_0000_0000_0000,
        decreases i,
    {
        let b = s[i - 1];
        proof {
            assert(s@.skip(i - 1).drop_first() =~= s@.skip(i as int));
            let t = le_value(s@.skip(i as int));
            assert((b as nat + 256 * t) % 0x1_0000_0000_0000_0000 == (b as nat + 256 * (t
                % 0x1_0000_0000_0000_0000)) % 0x1_0000_0000_0000_0000) by (nonlinear_arith);
        }
        v = ((v as u128 * 256 + b as u128) % 0x1_0000_0000_0000_0000) as u64;
        i = i - 1;
    }
    assert(s@.skip(0) =~= s@);
    proof {
        if s@.len() <= 8 {
            lemma_le_value_bound(s@);
            lemma_pow256_8();
            assert(pow256(s@.len()) <= pow256(8)) by {
                lemma_pow256_mono(s@.len(), 8);
            }
        }
    }
    v
}

pub proof fn lemma_pow256_mono(a: nat, b: nat)
    requires
        a <= b,
    ensures
        pow256(a) <= pow256(b),
    decreases b,
{
    if a < b {
        lemma_pow256_mono(a, (b - 1) as nat);
    }
}

} // verus!
