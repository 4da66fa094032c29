//! Authentication token tests: generation, verification, freshness, and
//! the base64 layer underneath.

use smtp_tunnel::b64::{b64_decode, b64_encode};
use smtp_tunnel::crypto::{generate_secret, unix_now, AuthToken, UserSecret, UserSecrets, ct_eq};

#[test]
fn test_token_generate_verify() {
    let secret = "test-secret-123";
    let username = "alice";
    let timestamp = unix_now();

    let token = AuthToken::generate(secret, username, timestamp);
    let (valid, user) = AuthToken::verify(&token, secret, 300);

    assert!(valid);
    assert_eq!(user, Some(username.to_string()));
}

#[test]
fn test_token_wrong_secret() {
    let token = AuthToken::generate("correct-secret", "alice", 1234567890);
    let (valid, _) = AuthToken::verify(&token, "wrong-secret", 300);

    assert!(!valid);
}

#[test]
fn test_token_expired() {
    let old_timestamp = unix_now() - 1000;

    let token = AuthToken::generate("secret", "alice", old_timestamp);
    let (valid, _) = AuthToken::verify(&token, "secret", 300);

    assert!(!valid);
}

#[test]
fn test_token_roundtrip_at_fixed_time() {
    let ts: u64 = 1_700_000_000;
    let token = AuthToken::generate("s3cret", "alice", ts);
    // Fresh: within max_age.
    let (ok, user) = AuthToken::verify_at(&token, "s3cret", 300, ts + 100);
    assert!(ok);
    assert_eq!(user.as_deref(), Some("alice"));
    // Exactly at the bound is still fresh.
    let (ok, _) = AuthToken::verify_at(&token, "s3cret", 300, ts + 300);
    assert!(ok);
    // One second past the bound is stale.
    let (ok, user) = AuthToken::verify_at(&token, "s3cret", 300, ts + 301);
    assert!(!ok);
    assert!(user.is_none());
    // Tokens from the future are rejected: no forward skew.
    let (ok, _) = AuthToken::verify_at(&token, "s3cret", 300, ts - 1);
    assert!(!ok);
}

#[test]
fn test_token_modified_rejected() {
    let ts: u64 = 1_700_000_000;
    let token = AuthToken::generate("s3cret", "alice", ts);
    // Flip one character of the token.
    let mut bytes = token.clone().into_bytes();
    bytes[0] = if bytes[0] == b'A' { b'B' } else { b'A' };
    let tampered = String::from_utf8(bytes).unwrap();
    let (ok, _) = AuthToken::verify_at(&tampered, "s3cret", 300, ts + 1);
    assert!(!ok);
    // A token minted for another username fails the lookup.
    let mut users = UserSecrets::new();
    users.insert("bob", "s3cret");
    let (ok, _) = AuthToken::verify_multi_user_at(&token, &users, 300, ts + 1);
    assert!(!ok);
}

#[test]
fn test_token_multi_user() {
    let ts: u64 = 1_700_000_000;
    let mut users = UserSecrets::new();
    users.insert("alice", "wonderland");
    users.insert("bob", "builder");
    let token = AuthToken::generate("builder", "bob", ts);
    let (ok, user) = AuthToken::verify_multi_user_at(&token, &users, 300, ts + 5);
    assert!(ok);
    assert_eq!(user.as_deref(), Some("bob"));
    // The same token under the wrong secret table entry fails.
    let mut wrong = UserSecrets::new();
    wrong.insert("bob", "someone-else");
    let (ok, _) = AuthToken::verify_multi_user_at(&token, &wrong, 300, ts + 5);
    assert!(!ok);
    assert!(users.get("alice").is_some());
    assert!(users.get("carol").is_none());
    let _ = UserSecret::new("x");
}

#[test]
fn test_token_shape() {
    // The decoded token is username:timestamp:base64(mac), and the mac part
    // is 44 characters: the base64 of a 32-byte SHA-256 tag.
    let token = AuthToken::generate("k", "alice", 12345);
    let inner = b64_decode(token.as_bytes()).unwrap();
    let text = String::from_utf8(inner).unwrap();
    let parts: Vec<&str> = text.split(':').collect();
    assert_eq!(parts.len(), 3);
    assert_eq!(parts[0], "alice");
    assert_eq!(parts[1], "12345");
    assert_eq!(parts[2].len(), 44);
    // Different secrets give different tags.
    let other = AuthToken::generate("k2", "alice", 12345);
    assert_ne!(token, other);
}

#[test]
fn test_b64_exact() {
    assert_eq!(b64_encode(b"hi"), "aGk=");
    assert_eq!(b64_encode(b""), "");
    assert_eq!(b64_encode(b"abc"), "YWJj");
    assert_eq!(b64_decode(b"aGk=").unwrap(), b"hi");
    assert_eq!(b64_decode(b"YWJj").unwrap(), b"abc");
    // Strict decoding: missing padding and bad alphabet bytes are rejected.
    assert!(b64_decode(b"QQ").is_none());
    assert!(b64_decode(b"a:b=").is_none());
    // Nonzero trailing bits are rejected: "aGl=" carries spare bits.
    assert!(b64_decode(b"aGl=").is_none());
}

#[test]
fn test_ct_eq() {
    assert!(ct_eq(b"same", b"same"));
    assert!(!ct_eq(b"same", b"sane"));
    assert!(!ct_eq(b"short", b"longer"));
    assert!(ct_eq(b"", b""));
}

#[test]
fn test_generate_secret_charset() {
    let s1 = generate_secret();
    let s2 = generate_secret();
    assert_eq!(s1.len(), 32);
    assert_eq!(s2.len(), 32);
    assert_ne!(s1, s2);
    for c in s1.chars() {
        assert!(c.is_ascii_alphanumeric());
    }
}

#[test]
fn test_unix_now_sane() {
    // The clock stands after 2001.
    assert!(unix_now() > 1_000_000_000);
}
