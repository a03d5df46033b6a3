//! A small keyed byte digest and a fixed-width little-endian integer codec.
//!
//! The digest is the one-way transform behind password hashing and token
//! signing; the codec carries 64-bit fields (expiry, signature tag) inside
//! serialized tokens.

use vstd::prelude::*;
use vstd::arithmetic::div_mod::lemma_fundamental_div_mod;

verus! {

/// Initial state of the digest.
pub const DIGEST_SEED: u64 = 0x6a09e667f3bcc908;

/// One mixing step: rotate the state left by seven bits, then fold in a byte.
pub open spec fn spec_mix(h: u64, b: u8) -> u64 {
    ((h << 7u64) | (h >> 57u64)) ^ (b as u64)
}

/// Digest of a byte sequence: the seed mixed with each byte in order.
pub open spec fn spec_digest(s: Seq<u8>) -> u64
    decreases s.len(),
{
    if s.len() == 0 {
        DIGEST_SEED
    } else {
        spec_mix(spec_digest(s.drop_last()), s.last())
    }
}

/// Computes the digest of a byte vector.
pub fn digest_bytes(s: &Vec<u8>) -> (r: u64)
    ensures
        r == spec_digest(s@),
{
    let mut h: u64 = DIGEST_SEED;
    let mut i: usize = 0;
    proof {
        assert(s@.subrange(0, 0) =~= Seq::<u8>::empty());
    }
    while i < s.len()
        invariant
            i <= s.len(),
            h == spec_digest(s@.subrange(0, i as int)),
        decreases s.len() - i,
    {
        proof {
            assert(s@.subrange(0, i + 1).drop_last() =~= s@.subrange(0, i as int));
            assert(s@.subrange(0, i + 1).last() == s@[i as int]);
        }
        h = ((h << 7u64) | (h >> 57u64)) ^ (s[i] as u64);
        i += 1;
    }
    proof {
        assert(s@.subrange(0, s@.len() as int) =~= s@);
    }
    h
}

/// 256 raised to the `k`-th power: the number of values of a `k`-byte field.
pub open spec fn pow256(k: nat) -> nat
    decreases k,
{
    if k == 0 {
        1
    } else {
        256 * pow256((k - 1) as nat)
    }
}

/// The `k` little-endian base-256 digits of `n`.
pub open spec fn spec_le_bytes(n: nat, k: nat) -> Seq<u8>
    decreases k,
{
    if k == 0 {
        Seq::empty()
    } else {
        seq![(n % 256) as u8] + spec_le_bytes(n / 256, (k - 1) as nat)
    }
}

/// The value of a little-endian base-256 digit sequence.
pub open spec fn spec_le_val(s: Seq<u8>) -> nat
    decreases s.len(),
{
    if s.len() == 0 {
        0
    } else {
        (s[0] as nat) + 256 * spec_le_val(s.drop_first())
    }
}

/// An encoded field has exactly `k` digits.
pub proof fn lemma_le_bytes_len(n: nat, k: nat)
    ensures
        spec_le_bytes(n, k).len() == k,
    decreases k,
{
    if k > 0 {
        lemma_le_bytes_len(n / 256, (k - 1) as nat);
    }
}

/// Decoding inverts encoding for any value that fits in `k` digits.
pub proof fn lemma_le_roundtrip(n: nat, k: nat)
    requires
        n < pow256(k),
    ensures
        spec_le_val(spec_le_bytes(n, k)) == n,
    decreases k,
{
    if k == 0 {
    } else {
        let b = spec_le_bytes(n, k);
        lemma_le_bytes_len(n / 256, (k - 1) as nat);
        assert(b.drop_first() =~= spec_le_bytes(n / 256, (k - 1) as nat));
        assert(n / 256 < pow256((k - 1) as nat)) by {
            lemma_fundamental_div_mod(n as int, 256);
            assert(n < 256 * pow256((k - 1) as nat));
            assert(256 * (n as int / 256) <= n as int);
            assert(n as int / 256 < pow256((k - 1) as nat)) by (nonlinear_arith)
                requires
                    256 * (n as int / 256) <= n as int,
                    n < 256 * pow256((k - 1) as nat),
            ;
        }
        lemma_le_roundtrip(n / 256, (k - 1) as nat);
        assert(spec_le_val(b) == (n % 256) + 256 * (n / 256));
        lemma_fundamental_div_mod(n as int, 256);
    }
}

/// A digit sequence of length `k` decodes to a value below `pow256(k)`.
pub proof fn lemma_le_val_bound(s: Seq<u8>)
    ensures
        spec_le_val(s) < pow256(s.len()),
    decreases s.len(),
{
    if s.len() > 0 {
        lemma_le_val_bound(s.drop_first());
        assert(spec_le_val(s) < pow256(s.len())) by (nonlinear_arith)
            requires
                spec_le_val(s) == (s[0] as nat) + 256 * spec_le_val(s.drop_first()),
                s[0] < 256,
                spec_le_val(s.drop_first()) < pow256((s.len() - 1) as nat),
                pow256(s.len() as nat) == 256 * pow256((s.len() - 1) as nat),
        ;
    }
}

/// Every 64-bit value fits in eight digits.
pub proof fn lemma_pow256_8()
    ensures
        pow256(8) == 0x10000000000000000,
{
    assert(pow256(0) == 1);
    assert(pow256(1) == 256);
    assert(pow256(2) == 0x10000);
    assert(pow256(3) == 0x1000000);
    assert(pow256(4) == 0x100000000);
    assert(pow256(5) == 0x10000000000);
    assert(pow256(6) == 0x1000000000000);
    assert(pow256(7) == 0x100000000000000);
    assert(pow256(8) == 0x10000000000000000);
}

/// Encodes a 64-bit value as its eight little-endian digits.
pub fn u64_to_le8(n: u64) -> (r: Vec<u8>)
    ensures
        r@ == spec_le_bytes(n as nat, 8),
        r@.len() == 8,
{
    let mut v: Vec<u8> = Vec::new();
    let mut cur: u64 = n;
    let mut i: usize = 0;
    while i < 8
        invariant
            i <= 8,
            v.len() == i,
            spec_le_bytes(n as nat, 8) == v@ + spec_le_bytes(cur as nat, (8 - i) as nat),
        decreases 8 - i,
    {
        let ghost prev = cur as nat;
        let b: u8 = (cur % 256) as u8;
        v.push(b);
        cur = cur / 256;
        i += 1;
        proof {
            assert(spec_le_bytes(prev, (8 - (i - 1)) as nat) =~= seq![b] + spec_le_bytes(
                cur as nat,
                (8 - i) as nat,
            ));
            assert(v@ + spec_le_bytes(cur as nat, (8 - i) as nat) =~= spec_le_bytes(n as nat, 8));
        }
    }
    proof {
        assert(v@ + spec_le_bytes(cur as nat, 0) =~= v@);
        lemma_le_bytes_len(n as nat, 8);
    }
    v
}

/// Decodes the eight little-endian digits starting at `start`.
pub fn le8_val_at(v: &Vec<u8>, start: usize) -> (r: u64)
    requires
        start + 8 <= v@.len(),
    ensures
        r as nat == spec_le_val(v@.subrange(start as int, start as int + 8)),
{
    let n = v.len();
    let mut acc: u64 = 0;
    let mut j: usize = 8;
    proof {
        assert(v@.subrange(start + 8, start + 8) =~= Seq::<u8>::empty());
    }
    while j > 0
        invariant
            j <= 8,
            n == v@.len(),
            start + 8 <= n,
            acc as nat == spec_le_val(v@.subrange(start + j, start as int + 8)),
        decreases j,
    {
        let idx = start + (j - 1);
        proof {
            let tail = v@.subrange(start + j, start as int + 8);
            let full = v@.subrange(start + j - 1, start as int + 8);
            assert(full.drop_first() =~= tail);
            assert(full[0] == v@[idx as int]);
            lemma_le_val_bound(tail);
            lemma_pow256_8();
            assert(pow256(tail.len()) <= pow256(7)) by {
                lemma_pow256_monotone(tail.len(), 7);
            }
            assert((acc as nat) * 256 + 255 < 0x10000000000000000) by (nonlinear_arith)
                requires
                    acc as nat <= pow256(7) - 1,
                    pow256(8) == 256 * pow256(7),
                    pow256(8) == 0x10000000000000000,
            ;
        }
        acc = acc * 256 + (v[idx] as u64);
        j -= 1;
    }
    acc
}

/// `pow256` is monotone in its exponent.
pub proof fn lemma_pow256_monotone(a: nat, b: nat)
    requires
        a <= b,
    ensures
        pow256(a) <= pow256(b),
    decreases b,
{
    if a < b {
        lemma_pow256_monotone(a, (b - 1) as nat);
        assert(pow256(b) == 256 * pow256((b - 1) as nat));
        assert(pow256((b - 1) as nat) <= 256 * pow256((b - 1) as nat)) by (nonlinear_arith)
            requires
                pow256((b - 1) as nat) >= 0,
        ;
    }
}

} // verus!
