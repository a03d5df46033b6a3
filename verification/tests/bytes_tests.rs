use todo_auth::auth::login_now;
use todo_auth::auth::register_decision;
use todo_auth::bytes::{bytes_eq, contains_bytes};
use todo_auth::digest::{digest_bytes, le8_val_at, u64_to_le8};
use todo_auth::hex::{hex_decode, hex_encode};

fn bytes(s: &str) -> Vec<u8> {
    s.as_bytes().to_vec()
}

#[test]
fn contains_finds_inner_runs_only() {
    assert!(contains_bytes(&bytes("token expired yesterday"), &bytes("expired")));
    assert!(contains_bytes(&bytes("expired"), &bytes("expired")));
    assert!(!contains_bytes(&bytes("expire"), &bytes("expired")));
    assert!(!contains_bytes(&bytes("EXPIRED"), &bytes("expired")));
    assert!(contains_bytes(&bytes("anything"), &bytes("")));
}

#[test]
fn byte_equality_is_by_contents() {
    assert!(bytes_eq(&bytes("abc"), &bytes("abc")));
    assert!(!bytes_eq(&bytes("abc"), &bytes("abd")));
    assert!(!bytes_eq(&bytes("abc"), &bytes("ab")));
}

#[test]
fn le8_round_trips_u64_values() {
    for n in [0u64, 1, 255, 256, 0xdead_beef, u64::MAX] {
        let enc = u64_to_le8(n);
        assert_eq!(enc.len(), 8);
        assert_eq!(le8_val_at(&enc, 0), n);
    }
    assert_eq!(u64_to_le8(0x0201)[0], 1);
    assert_eq!(u64_to_le8(0x0201)[1], 2);
}

#[test]
fn digest_depends_on_every_byte() {
    let a = digest_bytes(&bytes("abc"));
    let b = digest_bytes(&bytes("abd"));
    let c = digest_bytes(&bytes("ab"));
    assert_ne!(a, b);
    assert_ne!(a, c);
    assert_eq!(a, digest_bytes(&bytes("abc")));
}

#[test]
fn hex_round_trips_and_rejects_garbage() {
    let data = vec![0u8, 1, 15, 16, 171, 255];
    let enc = hex_encode(&data);
    assert_eq!(enc, bytes("00010f10abff"));
    assert_eq!(hex_decode(&enc), Some(data));
    assert_eq!(hex_decode(&bytes("abc")), None);
    assert_eq!(hex_decode(&bytes("zz")), None);
    assert_eq!(hex_decode(&bytes("AB")), None);
    assert_eq!(hex_decode(&bytes("")), Some(Vec::new()));
}

#[test]
fn login_against_the_clock_issues_an_hour_grant() {
    let secret = bytes("server-secret");
    let record = register_decision(false, bytes("a@x.com"), &bytes("pw1"), 9).unwrap();
    let grant = login_now(&Some(record), &bytes("pw1"), &secret).unwrap();
    assert_eq!(grant.expires_in_hours, 1);
    assert!(grant.token.len() >= 32);
    assert!(login_now(&None, &bytes("pw1"), &secret).is_err());
}
