//! Stateless bearer tokens: a serialized claim set signed with a server-held
//! secret, together with local issuance and verification.
//!
//! A token is laid out as eight little-endian bytes of expiry, eight
//! little-endian bytes of signature tag, and the subject bytes. The tag is
//! the digest of the expiry, the secret and the subject, so a holder of the
//! secret can recompute and check it.

use vstd::prelude::*;
use crate::digest::{
    digest_bytes, le8_val_at, lemma_le_bytes_len, lemma_le_roundtrip, lemma_pow256_8, pow256,
    spec_digest, spec_le_bytes, spec_le_val, u64_to_le8,
};
use crate::bytes::{append_bytes, copy_range};
use crate::hex::{hex_decode, hex_encode, hex_of, lemma_hex_round_trip, spec_hex_decode};

verus! {

/// Fixed token lifetime in seconds: one hour.
pub const TOKEN_TTL_SECONDS: u64 = 3600;

/// The identity assertion carried by a token.
#[derive(Debug)]
pub struct Claims {
    /// The authenticated identifier.
    pub subject: Vec<u8>,
    /// Unix timestamp after which the token is stale.
    pub expires_at: u64,
}

/// Why a token was rejected.
#[derive(Clone, Copy, PartialEq, Eq, Structural, Debug)]
pub enum TokenError {
    /// The signature was valid but the expiry has passed.
    Expired,
    /// Malformed token or wrong signature.
    Invalid,
}

/// The signature tag of a claim set under `secret`.
pub open spec fn spec_token_tag(secret: Seq<u8>, subject: Seq<u8>, expires: nat) -> u64 {
    spec_digest(spec_le_bytes(expires, 8) + secret + subject)
}

/// The raw token payload for `subject` expiring at `expires`.
pub open spec fn spec_issue_token(secret: Seq<u8>, subject: Seq<u8>, expires: nat) -> Seq<u8> {
    spec_le_bytes(expires, 8) + spec_le_bytes(spec_token_tag(secret, subject, expires) as nat, 8)
        + subject
}

/// The serialized text form of a token: the hex of its payload, so it can
/// travel inside a header as visible text with no whitespace.
pub open spec fn spec_issue_text(secret: Seq<u8>, subject: Seq<u8>, expires: nat) -> Seq<u8> {
    hex_of(spec_issue_token(secret, subject, expires))
}

/// The token is long enough to carry its two fixed fields.
pub open spec fn token_parses(t: Seq<u8>) -> bool {
    t.len() >= 16
}

/// The expiry field of a parseable token.
pub open spec fn token_expires(t: Seq<u8>) -> nat {
    spec_le_val(t.subrange(0, 8))
}

/// The signature-tag field of a parseable token.
pub open spec fn token_tag_field(t: Seq<u8>) -> nat {
    spec_le_val(t.subrange(8, 16))
}

/// The subject bytes of a parseable token.
pub open spec fn token_subject(t: Seq<u8>) -> Seq<u8> {
    t.subrange(16, t.len() as int)
}

/// The token parses and its tag is the digest of its own fields under
/// `secret`.
pub open spec fn token_signed(secret: Seq<u8>, t: Seq<u8>) -> bool {
    token_parses(t) && token_tag_field(t) == spec_token_tag(
        secret,
        token_subject(t),
        token_expires(t),
    ) as nat
}

/// The token's expiry is still in the future at time `now`.
pub open spec fn token_fresh(t: Seq<u8>, now: u64) -> bool {
    token_expires(t) > now as nat
}

/// Computes the signature tag over the expiry, the secret and the subject.
fn compute_tag(secret: &Vec<u8>, subject: &Vec<u8>, expires: u64) -> (r: u64)
    ensures
        r == spec_token_tag(secret@, subject@, expires as nat),
{
    let mut buf = u64_to_le8(expires);
    append_bytes(&mut buf, secret);
    append_bytes(&mut buf, subject);
    proof {
        assert(buf@ =~= spec_le_bytes(expires as nat, 8) + secret@ + subject@);
    }
    digest_bytes(&buf)
}

/// Issues a token for `subject` at time `now`: the claims expire one hour
/// later, are signed with `secret`, and travel as hex text.
pub fn issue_token(secret: &Vec<u8>, subject: &Vec<u8>, now: u64) -> (r: Vec<u8>)
    requires
        now + TOKEN_TTL_SECONDS <= u64::MAX,
    ensures
        r@ == spec_issue_text(secret@, subject@, (now + TOKEN_TTL_SECONDS) as nat),
{
    let expires = now + TOKEN_TTL_SECONDS;
    let tag = compute_tag(secret, subject, expires);
    let mut t = u64_to_le8(expires);
    let tag_bytes = u64_to_le8(tag);
    append_bytes(&mut t, &tag_bytes);
    append_bytes(&mut t, subject);
    proof {
        assert(t@ =~= spec_issue_token(secret@, subject@, (now + TOKEN_TTL_SECONDS) as nat));
    }
    hex_encode(&t)
}

/// A token built by `spec_issue_token` parses back into exactly the fields
/// it was built from.
pub proof fn lemma_issue_fields(secret: Seq<u8>, subject: Seq<u8>, expires: nat)
    requires
        expires < pow256(8),
    ensures
        token_parses(spec_issue_token(secret, subject, expires)),
        token_expires(spec_issue_token(secret, subject, expires)) == expires,
        token_tag_field(spec_issue_token(secret, subject, expires)) == spec_token_tag(
            secret,
            subject,
            expires,
        ) as nat,
        token_subject(spec_issue_token(secret, subject, expires)) == subject,
        token_signed(secret, spec_issue_token(secret, subject, expires)),
{
    let tag = spec_token_tag(secret, subject, expires) as nat;
    let t = spec_issue_token(secret, subject, expires);
    lemma_le_bytes_len(expires, 8);
    lemma_le_bytes_len(tag, 8);
    assert(t.subrange(0, 8) =~= spec_le_bytes(expires, 8));
    assert(t.subrange(8, 16) =~= spec_le_bytes(tag, 8));
    assert(t.subrange(16, t.len() as int) =~= subject);
    lemma_le_roundtrip(expires, 8);
    lemma_pow256_8();
    lemma_le_roundtrip(tag, 8);
}

/// Validates a raw token payload against `secret` at time `now`: the
/// signature check is mandatory, and only a correctly signed payload can
/// be reported expired.
fn verify_payload(secret: &Vec<u8>, token: &Vec<u8>, now: u64) -> (r: Result<Claims, TokenError>)
    ensures
        r is Ok <==> token_signed(secret@, token@) && token_fresh(token@, now),
        r is Ok ==> r->Ok_0.subject@ == token_subject(token@) && r->Ok_0.expires_at as nat
            == token_expires(token@),
        r == Err::<Claims, TokenError>(TokenError::Invalid) <==> !token_signed(secret@, token@),
        r == Err::<Claims, TokenError>(TokenError::Expired) <==> token_signed(secret@, token@)
            && !token_fresh(token@, now),
{
    if token.len() < 16 {
        return Err(TokenError::Invalid);
    }
    let expires = le8_val_at(token, 0);
    let tag = le8_val_at(token, 8);
    let subject = copy_range(token, 16, token.len());
    let expected = compute_tag(secret, &subject, expires);
    if tag != expected {
        return Err(TokenError::Invalid);
    }
    if expires <= now {
        return Err(TokenError::Expired);
    }
    Ok(Claims { subject, expires_at: expires })
}

/// Validates a serialized token against `secret` at time `now`: the text
/// must decode as hex to a payload whose signature checks out, and only a
/// correctly signed token can be reported expired.
pub fn verify_token(secret: &Vec<u8>, token: &Vec<u8>, now: u64) -> (r: Result<Claims, TokenError>)
    ensures
        r is Ok <==> (spec_hex_decode(token@) is Some && token_signed(
            secret@,
            spec_hex_decode(token@)->Some_0,
        ) && token_fresh(spec_hex_decode(token@)->Some_0, now)),
        r is Ok ==> r->Ok_0.subject@ == token_subject(spec_hex_decode(token@)->Some_0)
            && r->Ok_0.expires_at as nat == token_expires(spec_hex_decode(token@)->Some_0),
        r == Err::<Claims, TokenError>(TokenError::Invalid) <==> !(spec_hex_decode(token@) is Some
            && token_signed(secret@, spec_hex_decode(token@)->Some_0)),
        r == Err::<Claims, TokenError>(TokenError::Expired) <==> (spec_hex_decode(token@) is Some
            && token_signed(secret@, spec_hex_decode(token@)->Some_0) && !token_fresh(
            spec_hex_decode(token@)->Some_0,
            now,
        )),
{
    match hex_decode(token) {
        None => Err(TokenError::Invalid),
        Some(payload) => verify_payload(secret, &payload, now),
    }
}

/// A freshly issued token passes verification and yields the subject it was
/// issued for: its text decodes back to its payload, the payload is signed,
/// still fresh at any instant before its expiry, and carries the subject it
/// was issued for.
pub proof fn lemma_issued_token_verifies(secret: Seq<u8>, subject: Seq<u8>, now: u64, at: u64)
    requires
        now + TOKEN_TTL_SECONDS <= u64::MAX,
        at < now + TOKEN_TTL_SECONDS,
    ensures
        spec_hex_decode(spec_issue_text(secret, subject, (now + TOKEN_TTL_SECONDS) as nat))
            == Some(spec_issue_token(secret, subject, (now + TOKEN_TTL_SECONDS) as nat)),
        token_signed(secret, spec_issue_token(secret, subject, (now + TOKEN_TTL_SECONDS) as nat)),
        token_fresh(spec_issue_token(secret, subject, (now + TOKEN_TTL_SECONDS) as nat), at),
        token_subject(spec_issue_token(secret, subject, (now + TOKEN_TTL_SECONDS) as nat))
            == subject,
        token_expires(spec_issue_token(secret, subject, (now + TOKEN_TTL_SECONDS) as nat)) == now
            + TOKEN_TTL_SECONDS,
{
    lemma_pow256_8();
    lemma_issue_fields(secret, subject, (now + TOKEN_TTL_SECONDS) as nat);
    lemma_hex_round_trip(spec_issue_token(secret, subject, (now + TOKEN_TTL_SECONDS) as nat));
}

/// A correctly signed token whose expiry has passed is stale but still
/// signed, so verification reports `Expired`, not `Invalid`.
pub proof fn lemma_stale_token_expired(secret: Seq<u8>, subject: Seq<u8>, expires: u64, now: u64)
    requires
        expires <= now,
    ensures
        token_signed(secret, spec_issue_token(secret, subject, expires as nat)),
        !token_fresh(spec_issue_token(secret, subject, expires as nat), now),
{
    lemma_pow256_8();
    lemma_issue_fields(secret, subject, expires as nat);
}

/// A token whose tag field disagrees with the digest of its own fields is
/// not signed, so verification reports `Invalid` whatever the clock says.
pub proof fn lemma_tampered_token_invalid(secret: Seq<u8>, t: Seq<u8>)
    requires
        token_parses(t),
        token_tag_field(t) != spec_token_tag(secret, token_subject(t), token_expires(t)) as nat,
    ensures
        !token_signed(secret, t),
{
}

} // verus!
