use todo_auth::auth::{
    authorize_local, classify_store_error, extract_token, login_decision,
    register_conflict_message, register_decision, register_success_message, AuthDecision,
    AuthError, AuthResponse, LoginCreds,
};
use todo_auth::password::{hash_password, verify_password};
use todo_auth::token::{issue_token, verify_token, TokenError, TOKEN_TTL_SECONDS};

fn bytes(s: &str) -> Vec<u8> {
    s.as_bytes().to_vec()
}

#[test]
fn password_hash_round_trip() {
    let pw = bytes("pw1");
    let h = hash_password(&pw, 12345);
    assert!(verify_password(&pw, &h));
    assert_eq!(h.salt, 12345);
}

#[test]
fn wrong_password_rejected() {
    let pw = bytes("pw1");
    let h = hash_password(&pw, 777);
    assert!(!verify_password(&bytes("pw2"), &h));
    assert!(!verify_password(&bytes(""), &h));
}

#[test]
fn same_password_different_salt_different_digest() {
    let pw = bytes("pw1");
    let a = hash_password(&pw, 1);
    let b = hash_password(&pw, 2);
    assert_ne!(a.digest, b.digest);
}

#[test]
fn issued_token_verifies_with_subject() {
    let secret = bytes("server-secret");
    let subject = bytes("a@x.com");
    let now: u64 = 1_700_000_000;
    let token = issue_token(&secret, &subject, now);
    let claims = verify_token(&secret, &token, now).expect("fresh token must verify");
    assert_eq!(claims.subject, subject);
    assert_eq!(claims.expires_at, now + TOKEN_TTL_SECONDS);
}

#[test]
fn expired_token_distinct_from_tampered() {
    let secret = bytes("server-secret");
    let subject = bytes("a@x.com");
    let now: u64 = 1_700_000_000;
    let token = issue_token(&secret, &subject, now);

    let after_ttl = now + TOKEN_TTL_SECONDS;
    assert_eq!(verify_token(&secret, &token, after_ttl).unwrap_err(), TokenError::Expired);

    // Corrupt one hex character of the tag field while staying valid hex.
    let mut tampered = token.clone();
    tampered[16] = if tampered[16] == b'0' { b'1' } else { b'0' };
    assert_eq!(verify_token(&secret, &tampered, now).unwrap_err(), TokenError::Invalid);
    assert_ne!(TokenError::Expired, TokenError::Invalid);

    // A token that is not even hex text is invalid too.
    assert_eq!(verify_token(&secret, &bytes("not-hex!"), now).unwrap_err(), TokenError::Invalid);
}

#[test]
fn wrong_secret_rejected_even_if_well_formed() {
    let secret = bytes("server-secret");
    let other = bytes("another-secret");
    let now: u64 = 1_700_000_000;
    let token = issue_token(&other, &bytes("a@x.com"), now);
    assert_eq!(verify_token(&secret, &token, now).unwrap_err(), TokenError::Invalid);
}

#[test]
fn extract_second_whitespace_field() {
    assert_eq!(extract_token(&bytes("Bearer abc123")), bytes("abc123"));
    assert_eq!(extract_token(&bytes("  Basic\t  xyz  trailing")), bytes("xyz"));
}

#[test]
fn extract_without_second_field_is_placeholder() {
    assert_eq!(extract_token(&bytes("Bearer")), bytes("token not found "));
    assert_eq!(extract_token(&bytes("")), bytes("token not found "));
    assert_eq!(extract_token(&bytes("   ")), bytes("token not found "));
}

#[test]
fn missing_header_is_forbidden() {
    let secret = bytes("server-secret");
    match authorize_local(&secret, None, 0) {
        AuthDecision::Reject(e) => {
            assert_eq!(e, AuthError::MissingCredentialsHeader);
            assert_eq!(e.status_code(), 403);
            assert_eq!(e.message(), "Please add the JWT token to the header");
        }
        AuthDecision::Forward(_) => panic!("must not forward"),
    }
}

#[test]
fn undecodable_header_is_forbidden() {
    let secret = bytes("server-secret");
    let header = vec![0xffu8, 0x01u8];
    match authorize_local(&secret, Some(&header), 0) {
        AuthDecision::Reject(e) => {
            assert_eq!(e, AuthError::MalformedHeader);
            assert_eq!(e.status_code(), 403);
            assert_eq!(e.message(), "Empty header is not allowed");
        }
        AuthDecision::Forward(_) => panic!("must not forward"),
    }
}

#[test]
fn garbled_token_is_unauthorized() {
    let secret = bytes("server-secret");
    let header = bytes("Bearer garbage");
    match authorize_local(&secret, Some(&header), 0) {
        AuthDecision::Reject(e) => {
            assert_eq!(e, AuthError::TokenInvalid);
            assert_eq!(e.status_code(), 401);
            assert_eq!(e.message(), "Invalid token");
        }
        AuthDecision::Forward(_) => panic!("must not forward"),
    }
}

#[test]
fn header_without_token_is_unauthorized() {
    let secret = bytes("server-secret");
    let header = bytes("Bearer");
    match authorize_local(&secret, Some(&header), 0) {
        AuthDecision::Reject(e) => assert_eq!(e, AuthError::TokenInvalid),
        AuthDecision::Forward(_) => panic!("must not forward"),
    }
}

#[test]
fn middleware_forwards_valid_token_and_rejects_it_after_ttl() {
    let secret = bytes("server-secret");
    let subject = bytes("a@x.com");
    let now: u64 = 1_700_000_000;
    let token = issue_token(&secret, &subject, now);
    let mut header = bytes("Bearer ");
    header.extend_from_slice(&token);

    match authorize_local(&secret, Some(&header), now + 5) {
        AuthDecision::Forward(claims) => {
            assert_eq!(claims.subject, subject);
            assert_eq!(claims.expires_at, now + TOKEN_TTL_SECONDS);
        }
        AuthDecision::Reject(_) => panic!("valid token must forward"),
    }

    match authorize_local(&secret, Some(&header), now + TOKEN_TTL_SECONDS) {
        AuthDecision::Reject(e) => {
            assert_eq!(e, AuthError::TokenExpired);
            assert_eq!(e.status_code(), 401);
            assert_eq!(e.message(), "Token has expired please login again");
        }
        AuthDecision::Forward(_) => panic!("stale token must not forward"),
    }
}

#[test]
fn store_error_classified_by_expired_substring() {
    assert_eq!(
        classify_store_error(&bytes("The session has expired")),
        TokenError::Expired
    );
    assert_eq!(
        classify_store_error(&bytes("There was a problem with authentication")),
        TokenError::Invalid
    );
    assert_eq!(classify_store_error(&bytes("")), TokenError::Invalid);
}

#[test]
fn register_then_conflict_then_login() {
    let secret = bytes("server-secret");
    let now: u64 = 1_700_000_000;

    let record = register_decision(false, bytes("a@x.com"), &bytes("pw1"), 42)
        .expect("fresh identifier must register");
    assert_eq!(record.identifier, bytes("a@x.com"));

    let again = register_decision(true, bytes("a@x.com"), &bytes("pw1"), 43);
    let conflict = again.err().expect("duplicate identifier must conflict");
    assert_eq!(conflict, AuthError::ConflictExists);
    assert_eq!(conflict.status_code(), 409);

    let stored = Some(record);
    let grant = login_decision(&stored, &bytes("pw1"), &secret, now)
        .expect("correct password must log in");
    assert_eq!(grant.expires_in_hours, 1);
    assert!(!grant.token.is_empty());

    let wrong = login_decision(&stored, &bytes("pw2"), &secret, now);
    let e = wrong.err().expect("wrong password must be rejected");
    assert_eq!(e, AuthError::CredentialsInvalid);
    assert_eq!(e.status_code(), 401);

    let unknown = login_decision(&None, &bytes("pw1"), &secret, now);
    assert_eq!(unknown.err().unwrap(), AuthError::CredentialsInvalid);

    match authorize_local(
        &secret,
        Some(&{
            let mut h = bytes("Bearer ");
            h.extend_from_slice(&grant.token);
            h
        }),
        now + 10,
    ) {
        AuthDecision::Forward(claims) => assert_eq!(claims.subject, bytes("a@x.com")),
        AuthDecision::Reject(_) => panic!("granted token must forward within its lifetime"),
    }
}

#[test]
fn login_grant_replayed_after_ttl_expires() {
    let secret = bytes("server-secret");
    let now: u64 = 1_700_000_000;
    let record = register_decision(false, bytes("a@x.com"), &bytes("pw1"), 42).unwrap();
    let grant = login_decision(&Some(record), &bytes("pw1"), &secret, now).unwrap();
    let mut header = bytes("Bearer ");
    header.extend_from_slice(&grant.token);
    match authorize_local(&secret, Some(&header), now + 2 * TOKEN_TTL_SECONDS) {
        AuthDecision::Reject(e) => assert_eq!(e, AuthError::TokenExpired),
        AuthDecision::Forward(_) => panic!("replay after the TTL must be rejected"),
    }
}

#[test]
fn register_messages_name_the_key() {
    assert_eq!(
        register_success_message(&bytes("a@x.com")),
        bytes("a@x.com was registered")
    );
    assert_eq!(
        register_conflict_message(&bytes("a@x.com")),
        bytes("a@x.com already exists")
    );
}

#[test]
fn carrier_types_hold_their_fields() {
    let creds = LoginCreds { username: String::from("a@x.com"), password: String::from("pw1") };
    assert_eq!(creds.username, "a@x.com");
    let resp = AuthResponse { token: String::from("t"), expires_in_hours: 1 };
    assert_eq!(resp.expires_in_hours, 1);
}
