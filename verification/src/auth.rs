//! The authorization layer: the error taxonomy, the bearer-token middleware
//! decision, classification of upstream authentication errors, and the
//! registration and login decisions.

use vstd::prelude::*;
use vstd::string::{StrSliceExecFns, StringSliceAdditionalSpecFns};
use crate::bytes::{append_bytes, contains_bytes, contains_seq, copy_range, is_ws,
    lemma_seek_bounds, lemma_seek_pins, seek, seek_from};
use crate::password::{
    hash_password, spec_hash_password, spec_password_matches, verify_password, PasswordHash,
};
use crate::hex::{is_hex_digit, lemma_hex_chars, lemma_hex_len, spec_hex_decode};
use crate::token::{
    issue_token, lemma_issued_token_verifies, spec_issue_text, spec_issue_token, token_expires,
    token_fresh, token_signed, token_subject, verify_token, Claims, TokenError, TOKEN_TTL_SECONDS,
};

verus! {

/// Login request body: an identifier and a plaintext password.
#[derive(Debug)]
pub struct LoginCreds {
    pub username: String,
    pub password: String,
}

/// Login response body: the issued token and its lifetime in whole hours.
#[derive(Debug)]
pub struct AuthResponse {
    pub token: String,
    pub expires_in_hours: i64,
}

/// A stored credential: the unique identifier and the one-way hash of the
/// password. The plaintext never appears in it.
pub struct CredentialRecord {
    pub identifier: Vec<u8>,
    pub password_hash: PasswordHash,
}

/// The grant returned by a successful login.
pub struct LoginGrant {
    /// Serialized signed token.
    pub token: Vec<u8>,
    /// Whole hours until the token expires.
    pub expires_in_hours: i64,
}

/// Every failure the authorization layer reports.
#[derive(Clone, Copy, PartialEq, Eq, Structural, Debug)]
pub enum AuthError {
    /// No `Authorization` header was sent.
    MissingCredentialsHeader,
    /// The header was present but not decodable as text.
    MalformedHeader,
    /// The token's signature was valid but its expiry has passed.
    TokenExpired,
    /// The token was garbled or carried a wrong signature.
    TokenInvalid,
    /// Unknown identifier or wrong password; deliberately not distinguished.
    CredentialsInvalid,
    /// Duplicate registration or duplicate natural key.
    ConflictExists,
    /// A required id was missing on update or delete.
    NotFound,
    /// Any other failure of the data store.
    UpstreamStoreError,
}

impl AuthError {
    /// The HTTP status this failure is reported with.
    pub fn status_code(&self) -> (r: u16)
        ensures
            *self == AuthError::MissingCredentialsHeader ==> r == 403,
            *self == AuthError::MalformedHeader ==> r == 403,
            *self == AuthError::TokenExpired ==> r == 401,
            *self == AuthError::TokenInvalid ==> r == 401,
            *self == AuthError::CredentialsInvalid ==> r == 401,
            *self == AuthError::ConflictExists ==> r == 409,
            *self == AuthError::NotFound ==> r == 400,
            *self == AuthError::UpstreamStoreError ==> r == 400,
    {
        match self {
            AuthError::MissingCredentialsHeader => 403,
            AuthError::MalformedHeader => 403,
            AuthError::TokenExpired => 401,
            AuthError::TokenInvalid => 401,
            AuthError::CredentialsInvalid => 401,
            AuthError::ConflictExists => 409,
            AuthError::NotFound => 400,
            AuthError::UpstreamStoreError => 400,
        }
    }

    /// The plain-text message this failure is reported with. Authentication
    /// failures stay deliberately generic.
    pub fn message(&self) -> (r: &'static str)
        ensures
            *self == AuthError::MissingCredentialsHeader ==> r@ == "Please add the JWT token to the header"@,
            *self == AuthError::MalformedHeader ==> r@ == "Empty header is not allowed"@,
            *self == AuthError::TokenExpired ==> r@ == "Token has expired please login again"@,
            *self == AuthError::TokenInvalid ==> r@ == "Invalid token"@,
            *self == AuthError::CredentialsInvalid ==> r@ == "Invalid credentials"@,
            *self == AuthError::ConflictExists ==> r@ == "already exists"@,
            *self == AuthError::NotFound ==> r@ == "Id not provided"@,
            *self == AuthError::UpstreamStoreError ==> r@ == "Error in database"@,
    {
        match self {
            AuthError::MissingCredentialsHeader => "Please add the JWT token to the header",
            AuthError::MalformedHeader => "Empty header is not allowed",
            AuthError::TokenExpired => "Token has expired please login again",
            AuthError::TokenInvalid => "Invalid token",
            AuthError::CredentialsInvalid => "Invalid credentials",
            AuthError::ConflictExists => "already exists",
            AuthError::NotFound => "Id not provided",
            AuthError::UpstreamStoreError => "Error in database",
        }
    }
}

/// The outcome of the middleware: forward the request with the verified
/// claims attached, or reject it with a classified failure.
pub enum AuthDecision {
    Forward(Claims),
    Reject(AuthError),
}

/// A header byte that survives decoding as text: visible ASCII, space or
/// horizontal tab.
pub open spec fn is_header_text_byte(b: u8) -> bool {
    b == 9 || (32 <= b && b <= 126)
}

/// The whole header value is decodable as text.
pub open spec fn header_is_text(s: Seq<u8>) -> bool {
    forall|i: int| 0 <= i < s.len() ==> is_header_text_byte(#[trigger] s[i])
}

/// The stand-in candidate used when the header carries no second field.
pub open spec fn missing_token_placeholder() -> Seq<u8> {
    "token not found ".spec_bytes()
}

/// The token candidate of a header value: its second whitespace-delimited
/// field. The first field, conventionally a scheme label, is discarded
/// without being validated; if no second field exists the candidate is a
/// fixed placeholder that cannot verify.
pub open spec fn spec_token_candidate(s: Seq<u8>) -> Seq<u8> {
    let a = seek(s, 0, false);
    let b = seek(s, a, true);
    let c = seek(s, b, false);
    let d = seek(s, c, true);
    if c < s.len() {
        s.subrange(c, d)
    } else {
        missing_token_placeholder()
    }
}

/// Checks that a header value is decodable as text.
pub fn check_header_text(h: &Vec<u8>) -> (r: bool)
    ensures
        r == header_is_text(h@),
{
    let mut i: usize = 0;
    while i < h.len()
        invariant
            i <= h@.len(),
            forall|k: int| 0 <= k < i ==> is_header_text_byte(#[trigger] h@[k]),
        decreases h@.len() - i,
    {
        let b = h[i];
        if !(b == 9 || (32 <= b && b <= 126)) {
            return false;
        }
        i += 1;
    }
    true
}

/// Extracts the token candidate from a header value.
pub fn extract_token(h: &Vec<u8>) -> (r: Vec<u8>)
    ensures
        r@ == spec_token_candidate(h@),
{
    proof {
        lemma_seek_bounds(h@, 0, false);
    }
    let a = seek_from(h, 0, false);
    proof {
        lemma_seek_bounds(h@, a as int, true);
    }
    let b = seek_from(h, a, true);
    proof {
        lemma_seek_bounds(h@, b as int, false);
    }
    let c = seek_from(h, b, false);
    proof {
        lemma_seek_bounds(h@, c as int, true);
    }
    let d = seek_from(h, c, true);
    if c < h.len() {
        copy_range(h, c, d)
    } else {
        "token not found ".as_bytes_vec()
    }
}

/// The middleware decision under local verification: look up the header,
/// check it decodes as text, take its second whitespace-delimited field as
/// the token, and validate signature and expiry against `secret` at `now`.
pub fn authorize_local(secret: &Vec<u8>, header: Option<&Vec<u8>>, now: u64) -> (r: AuthDecision)
    ensures
        header is None ==> (r matches AuthDecision::Reject(e) && e
            == AuthError::MissingCredentialsHeader),
        header is Some && !header_is_text(header->Some_0@) ==> (r matches AuthDecision::Reject(e)
            && e == AuthError::MalformedHeader),
        header is Some && header_is_text(header->Some_0@) && spec_hex_decode(
            spec_token_candidate(header->Some_0@),
        ) is Some && token_signed(
            secret@,
            spec_hex_decode(spec_token_candidate(header->Some_0@))->Some_0,
        ) && token_fresh(
            spec_hex_decode(spec_token_candidate(header->Some_0@))->Some_0,
            now,
        ) ==> (r matches AuthDecision::Forward(c) && c.subject@ == token_subject(
            spec_hex_decode(spec_token_candidate(header->Some_0@))->Some_0,
        ) && c.expires_at as nat == token_expires(
            spec_hex_decode(spec_token_candidate(header->Some_0@))->Some_0,
        )),
        header is Some && header_is_text(header->Some_0@) && spec_hex_decode(
            spec_token_candidate(header->Some_0@),
        ) is Some && token_signed(
            secret@,
            spec_hex_decode(spec_token_candidate(header->Some_0@))->Some_0,
        ) && !token_fresh(
            spec_hex_decode(spec_token_candidate(header->Some_0@))->Some_0,
            now,
        ) ==> (r matches AuthDecision::Reject(e) && e == AuthError::TokenExpired),
        header is Some && header_is_text(header->Some_0@) && !(spec_hex_decode(
            spec_token_candidate(header->Some_0@),
        ) is Some && token_signed(
            secret@,
            spec_hex_decode(spec_token_candidate(header->Some_0@))->Some_0,
        )) ==> (r matches AuthDecision::Reject(e) && e == AuthError::TokenInvalid),
{
    match header {
        None => AuthDecision::Reject(AuthError::MissingCredentialsHeader),
        Some(h) => {
            if !check_header_text(h) {
                AuthDecision::Reject(AuthError::MalformedHeader)
            } else {
                let candidate = extract_token(h);
                match verify_token(secret, &candidate, now) {
                    Ok(claims) => AuthDecision::Forward(claims),
                    Err(TokenError::Expired) => AuthDecision::Reject(AuthError::TokenExpired),
                    Err(TokenError::Invalid) => AuthDecision::Reject(AuthError::TokenInvalid),
                }
            }
        },
    }
}

/// A header made of a whitespace-free scheme label, one space, and a
/// whitespace-free token yields exactly that token as the candidate.
pub proof fn lemma_scheme_then_token_extracted(scheme: Seq<u8>, t: Seq<u8>)
    requires
        0 < scheme.len(),
        0 < t.len(),
        forall|i: int| 0 <= i < scheme.len() ==> !is_ws(#[trigger] scheme[i]),
        forall|i: int| 0 <= i < t.len() ==> !is_ws(#[trigger] t[i]),
    ensures
        spec_token_candidate(scheme + seq![32u8] + t) == t,
{
    let h = scheme + seq![32u8] + t;
    let m = scheme.len() as int;
    assert(h.len() == m + 1 + t.len());
    assert(forall|k: int| 0 <= k < m ==> h[k] == scheme[k]);
    assert(h[m] == 32u8);
    assert(forall|k: int| m + 1 <= k < h.len() ==> h[k] == t[k - m - 1]);
    lemma_seek_pins(h, 0, 0, false);
    lemma_seek_pins(h, 0, m, true);
    lemma_seek_pins(h, m, m + 1, false);
    lemma_seek_pins(h, m + 1, h.len() as int, true);
    assert(h.subrange(m + 1, h.len() as int) =~= t);
}

/// A freshly issued token survives the whole middleware path when placed
/// after any whitespace-free scheme label: the header decodes as text, the
/// token is extracted intact, decodes to its signed payload, and stays
/// fresh until its expiry, carrying the subject it was issued for.
pub proof fn lemma_issued_header_accepted(
    secret: Seq<u8>,
    subject: Seq<u8>,
    scheme: Seq<u8>,
    now: u64,
    at: u64,
)
    requires
        now + TOKEN_TTL_SECONDS <= u64::MAX,
        at < now + TOKEN_TTL_SECONDS,
        0 < scheme.len(),
        forall|i: int|
            0 <= i < scheme.len() ==> is_header_text_byte(#[trigger] scheme[i]) && !is_ws(
                scheme[i],
            ),
    ensures
        header_is_text(
            scheme + seq![32u8] + spec_issue_text(
                secret,
                subject,
                (now + TOKEN_TTL_SECONDS) as nat,
            ),
        ),
        spec_token_candidate(
            scheme + seq![32u8] + spec_issue_text(
                secret,
                subject,
                (now + TOKEN_TTL_SECONDS) as nat,
            ),
        ) == spec_issue_text(secret, subject, (now + TOKEN_TTL_SECONDS) as nat),
        spec_hex_decode(spec_issue_text(secret, subject, (now + TOKEN_TTL_SECONDS) as nat))
            == Some(spec_issue_token(secret, subject, (now + TOKEN_TTL_SECONDS) as nat)),
        token_signed(secret, spec_issue_token(secret, subject, (now + TOKEN_TTL_SECONDS) as nat)),
        token_fresh(spec_issue_token(secret, subject, (now + TOKEN_TTL_SECONDS) as nat), at),
        token_subject(spec_issue_token(secret, subject, (now + TOKEN_TTL_SECONDS) as nat))
            == subject,
{
    let expires = (now + TOKEN_TTL_SECONDS) as nat;
    let payload = spec_issue_token(secret, subject, expires);
    let tok = spec_issue_text(secret, subject, expires);
    lemma_issued_token_verifies(secret, subject, now, at);
    lemma_hex_chars(payload);
    lemma_hex_len(payload);
    crate::digest::lemma_le_bytes_len(expires, 8);
    crate::digest::lemma_le_bytes_len(
        crate::token::spec_token_tag(secret, subject, expires) as nat,
        8,
    );
    assert(payload.len() >= 16);
    assert(tok.len() >= 32);
    assert(forall|i: int| 0 <= i < tok.len() ==> is_hex_digit(#[trigger] tok[i]));
    assert(forall|i: int|
        0 <= i < tok.len() ==> !is_ws(#[trigger] tok[i]) && is_header_text_byte(tok[i]));
    lemma_scheme_then_token_extracted(scheme, tok);
    let h = scheme + seq![32u8] + tok;
    let m = scheme.len() as int;
    assert forall|i: int| 0 <= i < h.len() implies is_header_text_byte(#[trigger] h[i]) by {
        if i < m {
            assert(h[i] == scheme[i]);
        } else if i == m {
            assert(h[i] == 32u8);
        } else {
            assert(h[i] == tok[i - m - 1]);
        }
    }
}

/// The marker substring that identifies an expiry failure in the store's
/// opaque error text.
pub open spec fn expired_marker() -> Seq<u8> {
    "expired".spec_bytes()
}

/// Classifies the opaque error text of the store's own authenticate
/// operation, under delegated verification: an error mentioning the expiry
/// marker is an expired token, everything else an invalid one.
pub fn classify_store_error(message: &Vec<u8>) -> (r: TokenError)
    ensures
        r == TokenError::Expired <==> contains_seq(message@, expired_marker()),
        r == TokenError::Invalid <==> !contains_seq(message@, expired_marker()),
{
    let marker = "expired".as_bytes_vec();
    if contains_bytes(message, &marker) {
        TokenError::Expired
    } else {
        TokenError::Invalid
    }
}

/// The registration decision: a taken identifier is a conflict; otherwise
/// the stored record carries the identifier and the salted hash of the
/// password, never the plaintext.
pub fn register_decision(identifier_taken: bool, identifier: Vec<u8>, password: &Vec<u8>, salt: u64)
    -> (r: Result<CredentialRecord, AuthError>)
    ensures
        identifier_taken ==> (r matches Err(e) && e == AuthError::ConflictExists),
        !identifier_taken ==> (r matches Ok(c) && c.identifier@ == identifier@ && c.password_hash
            == spec_hash_password(salt, password@)),
{
    if identifier_taken {
        Err(AuthError::ConflictExists)
    } else {
        let password_hash = hash_password(password, salt);
        Ok(CredentialRecord { identifier, password_hash })
    }
}

/// The conflict message for a duplicate registration, naming the key.
pub fn register_conflict_message(identifier: &Vec<u8>) -> (r: Vec<u8>)
    ensures
        r@ == identifier@ + " already exists".spec_bytes(),
{
    let mut m = copy_range(identifier, 0, identifier.len());
    proof {
        assert(identifier@.subrange(0, identifier@.len() as int) =~= identifier@);
    }
    let suffix = " already exists".as_bytes_vec();
    append_bytes(&mut m, &suffix);
    m
}

/// The success message for a completed registration, naming the key.
pub fn register_success_message(identifier: &Vec<u8>) -> (r: Vec<u8>)
    ensures
        r@ == identifier@ + " was registered".spec_bytes(),
{
    let mut m = copy_range(identifier, 0, identifier.len());
    proof {
        assert(identifier@.subrange(0, identifier@.len() as int) =~= identifier@);
    }
    let suffix = " was registered".as_bytes_vec();
    append_bytes(&mut m, &suffix);
    m
}

/// The login decision: an unknown identifier and a wrong password are
/// rejected alike; a verified password yields a token for the stored
/// identifier that expires exactly one hour after `now`.
pub fn login_decision(
    record: &Option<CredentialRecord>,
    password: &Vec<u8>,
    secret: &Vec<u8>,
    now: u64,
) -> (r: Result<LoginGrant, AuthError>)
    requires
        now + TOKEN_TTL_SECONDS <= u64::MAX,
    ensures
        r is Ok <==> (record matches Some(c) && spec_password_matches(password@, c.password_hash)),
        r matches Ok(g) ==> (record matches Some(c) && g.token@ == spec_issue_text(
            secret@,
            c.identifier@,
            (now + TOKEN_TTL_SECONDS) as nat,
        ) && g.expires_in_hours == 1),
        r matches Err(e) ==> e == AuthError::CredentialsInvalid,
{
    match record {
        None => Err(AuthError::CredentialsInvalid),
        Some(c) => {
            if verify_password(password, &c.password_hash) {
                let token = issue_token(secret, &c.identifier, now);
                let expires_at = now + TOKEN_TTL_SECONDS;
                let hours = (expires_at - now) / 3600;
                Ok(LoginGrant { token, expires_in_hours: hours as i64 })
            } else {
                Err(AuthError::CredentialsInvalid)
            }
        },
    }
}

/// Relies on chrono's `Utc::now` and `DateTime::timestamp` for the current
/// Unix time in whole seconds. `Utc::now` reads the system clock and
/// requires it to be at or after the Unix epoch, so the result is
/// non-negative; nothing else is assumed of it.
#[verifier::external_body]
fn unix_now_seconds() -> (r: i64)
    ensures
        0 <= r,
{
    chrono::Utc::now().timestamp()
}

/// The current Unix time, clamped so that one token lifetime can always be
/// added without overflow.
pub fn clock_now() -> (r: u64)
    ensures
        r + TOKEN_TTL_SECONDS <= u64::MAX,
{
    let t = unix_now_seconds();
    let u = t as u64;
    if u <= u64::MAX - TOKEN_TTL_SECONDS {
        u
    } else {
        u64::MAX - TOKEN_TTL_SECONDS
    }
}

/// Login against the system clock: whatever instant the clock reports, a
/// grant is returned exactly for a stored record whose hash accepts the
/// password, and any grant carries the one-hour lifetime.
pub fn login_now(record: &Option<CredentialRecord>, password: &Vec<u8>, secret: &Vec<u8>) -> (r:
    Result<LoginGrant, AuthError>)
    ensures
        r is Ok <==> (record matches Some(c) && spec_password_matches(password@, c.password_hash)),
        r matches Ok(g) ==> g.expires_in_hours == 1 && g.token@.len() >= 32,
        r matches Err(e) ==> e == AuthError::CredentialsInvalid,
{
    let now = clock_now();
    let r = login_decision(record, password, secret, now);
    proof {
        if r is Ok {
            let expires = (now + TOKEN_TTL_SECONDS) as nat;
            let subject = record->Some_0.identifier@;
            crate::digest::lemma_le_bytes_len(expires, 8);
            crate::digest::lemma_le_bytes_len(
                crate::token::spec_token_tag(secret@, subject, expires) as nat,
                8,
            );
            lemma_hex_len(spec_issue_token(secret@, subject, expires));
        }
    }
    r
}

} // verus!
