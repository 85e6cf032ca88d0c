//! The integrity digest recorded for every batch written to disk.
//!
//! The digest is a 64-bit FNV-1a hash.  It is defined here as a spec
//! function and computed by a verified loop, so the corruption-detection
//! argument (a single corrupted byte always changes the digest) can be
//! proved rather than assumed.
use vstd::prelude::*;

verus! {

/// Offset basis of the 64-bit FNV-1a hash.
pub const FNV_OFFSET: u64 = 0xcbf29ce484222325;

/// Prime multiplier of the 64-bit FNV-1a hash.
pub const FNV_PRIME: u64 = 0x100000001b3;

/// One step of the hash: fold the next byte into the running state.
pub open spec fn fnv_step(h: u64, b: u8) -> u64 {
    (((h ^ (b as u64)) as nat * FNV_PRIME as nat) % 0x1_0000_0000_0000_0000nat) as u64
}

/// The hash state after absorbing all of `s`, starting from state `h`.
pub open spec fn fnv_from(h: u64, s: Seq<u8>) -> u64
    decreases s.len(),
{
    if s.len() == 0 {
        h
    } else {
        fnv_from(fnv_step(h, s[0]), s.drop_first())
    }
}

/// The digest of a byte sequence.
pub open spec fn fnv_digest(s: Seq<u8>) -> u64 {
    fnv_from(FNV_OFFSET, s)
}

/// Absorbing one more byte applies one more step.
pub proof fn lemma_fnv_from_push(h: u64, s: Seq<u8>, b: u8)
    ensures
        fnv_from(h, s.push(b)) == fnv_step(fnv_from(h, s), b),
    decreases s.len(),
{
    if s.len() == 0 {
        assert(s.push(b)[0] == b);
        assert(s.push(b).drop_first() =~= Seq::<u8>::empty());
        assert(fnv_from(fnv_step(h, b), Seq::<u8>::empty()) == fnv_step(h, b));
        assert(fnv_from(h, s.push(b)) == fnv_step(h, b));
    } else {
        assert(s.push(b)[0] == s[0]);
        assert(s.push(b).drop_first() =~= s.drop_first().push(b));
        lemma_fnv_from_push(fnv_step(h, s[0]), s.drop_first(), b);
        assert(fnv_from(h, s.push(b)) == fnv_from(fnv_step(h, s[0]), s.drop_first().push(b)));
        assert(fnv_from(h, s) == fnv_from(fnv_step(h, s[0]), s.drop_first()));
    }
}

/// Multiplicative inverse of `FNV_PRIME` modulo 2^64; the prime is odd,
/// so one exists, which makes every hash step a bijection of the state.
pub const FNV_PRIME_INVERSE: u64 = 0xce965057aff6957b;

/// Multiplying by the odd prime is injective modulo 2^64.
proof fn lemma_mul_prime_injective(x1: u64, x2: u64)
    requires
        (x1 as nat * FNV_PRIME as nat) % 0x1_0000_0000_0000_0000nat == (x2 as nat
            * FNV_PRIME as nat) % 0x1_0000_0000_0000_0000nat,
    ensures
        x1 == x2,
{
    let m: int = 0x1_0000_0000_0000_0000;
    let p: int = FNV_PRIME as int;
    let q: int = FNV_PRIME_INVERSE as int;
    let a1: int = x1 as int;
    let a2: int = x2 as int;
    assert((a1 * p) % m == (a2 * p) % m);
    assert(p * q % m == 1);
    vstd::arithmetic::div_mod::lemma_mul_mod_noop_left(a1 * p, q, m);
    vstd::arithmetic::div_mod::lemma_mul_mod_noop_left(a2 * p, q, m);
    assert(((a1 * p) % m) * q % m == ((a2 * p) % m) * q % m);
    assert((a1 * p * q) % m == (a2 * p * q) % m);
    vstd::arithmetic::mul::lemma_mul_is_associative(a1, p, q);
    vstd::arithmetic::mul::lemma_mul_is_associative(a2, p, q);
    vstd::arithmetic::div_mod::lemma_mul_mod_noop_right(a1, p * q, m);
    vstd::arithmetic::div_mod::lemma_mul_mod_noop_right(a2, p * q, m);
    assert((a1 * ((p * q) % m)) % m == (a2 * ((p * q) % m)) % m);
    assert(a1 * 1 == a1);
    assert(a2 * 1 == a2);
    vstd::arithmetic::div_mod::lemma_small_mod(a1 as nat, m as nat);
    vstd::arithmetic::div_mod::lemma_small_mod(a2 as nat, m as nat);
}

/// Two different states stay different after absorbing the same byte.
proof fn lemma_step_injective(h1: u64, h2: u64, b: u8)
    requires
        h1 != h2,
    ensures
        fnv_step(h1, b) != fnv_step(h2, b),
{
    let c = b as u64;
    if fnv_step(h1, b) == fnv_step(h2, b) {
        lemma_mul_prime_injective(h1 ^ c, h2 ^ c);
        assert((h1 ^ c) == (h2 ^ c) ==> h1 == h2) by (bit_vector);
        assert(false);
    }
}

/// One state stepped with two different bytes gives two different states.
proof fn lemma_step_byte_injective(h: u64, b1: u8, b2: u8)
    requires
        b1 != b2,
    ensures
        fnv_step(h, b1) != fnv_step(h, b2),
{
    let c1 = b1 as u64;
    let c2 = b2 as u64;
    if fnv_step(h, b1) == fnv_step(h, b2) {
        lemma_mul_prime_injective(h ^ c1, h ^ c2);
        assert((h ^ c1) == (h ^ c2) ==> c1 == c2) by (bit_vector);
        assert(false);
    }
}

/// Two different states stay different after absorbing the same bytes.
proof fn lemma_fnv_from_injective(h1: u64, h2: u64, s: Seq<u8>)
    requires
        h1 != h2,
    ensures
        fnv_from(h1, s) != fnv_from(h2, s),
    decreases s.len(),
{
    if s.len() > 0 {
        lemma_step_injective(h1, h2, s[0]);
        lemma_fnv_from_injective(fnv_step(h1, s[0]), fnv_step(h2, s[0]), s.drop_first());
    }
}

/// Absorbing a concatenation absorbs one part after the other.
proof fn lemma_fnv_from_concat(h: u64, a: Seq<u8>, b: Seq<u8>)
    ensures
        fnv_from(h, a + b) == fnv_from(fnv_from(h, a), b),
    decreases a.len(),
{
    if a.len() == 0 {
        assert(a + b =~= b);
    } else {
        assert((a + b)[0] == a[0]);
        assert((a + b).drop_first() =~= a.drop_first() + b);
        lemma_fnv_from_concat(fnv_step(h, a[0]), a.drop_first(), b);
    }
}

/// Corrupting any single byte of a buffer always changes its digest:
/// every hash step is a bijection of the 64-bit state, so the states
/// diverge at the corrupted position and never meet again.
pub proof fn lemma_digest_detects_flip(s: Seq<u8>, i: int, b: u8)
    requires
        0 <= i < s.len(),
        b != s[i],
    ensures
        fnv_digest(s.update(i, b)) != fnv_digest(s),
{
    let t = s.update(i, b);
    let head = s.take(i);
    let rest = s.skip(i + 1);
    assert(s =~= head + (seq![s[i]] + rest));
    assert(t =~= head + (seq![b] + rest));
    lemma_fnv_from_concat(FNV_OFFSET, head, seq![s[i]] + rest);
    lemma_fnv_from_concat(FNV_OFFSET, head, seq![b] + rest);
    let h0 = fnv_from(FNV_OFFSET, head);
    assert((seq![s[i]] + rest)[0] == s[i]);
    assert((seq![s[i]] + rest).drop_first() =~= rest);
    assert((seq![b] + rest)[0] == b);
    assert((seq![b] + rest).drop_first() =~= rest);
    assert(fnv_from(h0, seq![s[i]] + rest) == fnv_from(fnv_step(h0, s[i]), rest));
    assert(fnv_from(h0, seq![b] + rest) == fnv_from(fnv_step(h0, b), rest));
    lemma_step_byte_injective(h0, s[i], b);
    lemma_fnv_from_injective(fnv_step(h0, s[i]), fnv_step(h0, b), rest);
}

/// Computes the digest of a byte buffer.
pub fn digest(bytes: &Vec<u8>) -> (r: u64)
    ensures
        r == fnv_digest(bytes@),
{
    let mut h: u64 = FNV_OFFSET;
    let mut i: usize = 0;
    while i < bytes.len()
        invariant
            i <= bytes@.len(),
            h == fnv_from(FNV_OFFSET, bytes@.take(i as int)),
        decreases bytes@.len() - i,
    {
        let b = bytes[i];
        proof {
            lemma_fnv_from_push(FNV_OFFSET, bytes@.take(i as int), bytes@[i as int]);
            assert(bytes@.take(i as int).push(bytes@[i as int]) =~= bytes@.take(i as int + 1));
        }
        h = (h ^ (b as u64)).wrapping_mul(FNV_PRIME);
        i = i + 1;
    }
    proof {
        assert(bytes@.take(bytes@.len() as int) =~= bytes@);
    }
    h
}

} // verus!
