//! Salted one-way password hashing with a fixed stretching cost, and
//! verification by recomputation.

use vstd::prelude::*;
use crate::digest::{digest_bytes, spec_digest, spec_le_bytes, spec_mix, u64_to_le8};
use crate::bytes::append_bytes;

verus! {

/// Fixed cost factor: how many extra mixing rounds are applied on top of
/// the base digest.
pub const STRETCH_ROUNDS: u64 = 4096;

/// A stored credential hash: the salt it was computed with and the
/// stretched digest of salt and password. The plaintext is not recoverable
/// from it and is never stored.
#[derive(Clone, Copy, PartialEq, Eq, Structural, Debug)]
pub struct PasswordHash {
    /// Per-credential salt.
    pub salt: u64,
    /// Stretched digest of the salted password.
    pub digest: u64,
}

/// `r` further mixing rounds applied to a base digest.
pub open spec fn spec_stretch(h: u64, r: nat) -> u64
    decreases r,
{
    if r == 0 {
        h
    } else {
        spec_mix(spec_stretch(h, (r - 1) as nat), 0)
    }
}

/// The stretched digest of `password` under `salt`.
pub open spec fn spec_password_digest(salt: u64, password: Seq<u8>) -> u64 {
    spec_stretch(spec_digest(spec_le_bytes(salt as nat, 8) + password), STRETCH_ROUNDS as nat)
}

/// The hash record stored for `password` under `salt`.
pub open spec fn spec_hash_password(salt: u64, password: Seq<u8>) -> PasswordHash {
    PasswordHash { salt, digest: spec_password_digest(salt, password) }
}

/// A candidate plaintext is accepted by a stored hash exactly when its
/// stretched digest under the stored salt equals the stored digest.
pub open spec fn spec_password_matches(password: Seq<u8>, h: PasswordHash) -> bool {
    spec_password_digest(h.salt, password) == h.digest
}

/// Hashes `password` under the caller-supplied random `salt`.
pub fn hash_password(password: &Vec<u8>, salt: u64) -> (r: PasswordHash)
    ensures
        r == spec_hash_password(salt, password@),
{
    let mut buf = u64_to_le8(salt);
    append_bytes(&mut buf, password);
    proof {
        assert(buf@ =~= spec_le_bytes(salt as nat, 8) + password@);
    }
    let mut h = digest_bytes(&buf);
    let mut round: u64 = 0;
    while round < STRETCH_ROUNDS
        invariant
            round <= STRETCH_ROUNDS,
            h == spec_stretch(spec_digest(spec_le_bytes(salt as nat, 8) + password@), round as nat),
        decreases STRETCH_ROUNDS - round,
    {
        h = ((h << 7u64) | (h >> 57u64)) ^ 0u64;
        round += 1;
    }
    PasswordHash { salt, digest: h }
}

/// Checks `password` against a stored hash by recomputing the digest under
/// the stored salt; returns false exactly on a digest mismatch.
pub fn verify_password(password: &Vec<u8>, h: &PasswordHash) -> (r: bool)
    ensures
        r == spec_password_matches(password@, *h),
{
    let recomputed = hash_password(password, h.salt);
    recomputed.digest == h.digest
}

/// Hashing then verifying the same plaintext always succeeds, for any salt.
pub proof fn lemma_hash_round_trip(password: Seq<u8>, salt: u64)
    ensures
        spec_password_matches(password, spec_hash_password(salt, password)),
{
}

/// A candidate whose stretched digest under the stored salt differs from
/// the right password's is rejected. (Two plaintexts whose digests collide
/// under the same salt are indistinguishable to the hasher; this law speaks
/// of every pair that does not collide.)
pub proof fn lemma_wrong_password_rejected(wrong: Seq<u8>, password: Seq<u8>, salt: u64)
    requires
        spec_password_digest(salt, wrong) != spec_password_digest(salt, password),
    ensures
        !spec_password_matches(wrong, spec_hash_password(salt, password)),
{
}

} // verus!
