//! The session codec against the real signing and hashing crates: issue,
//! validate, expire, tamper; hash and verify.

use socialnet::auth::hash::{compare_password, hash_str};
use socialnet::auth::{create_jwt, validate_jwt, Sub, WEEK_SECS};

const SECRET: &str = "test-signing-secret";
const NOW: u64 = 1_700_000_000;

fn claim() -> Sub {
    Sub {
        id: 7,
        user_at: String::from("ana"),
        email: String::from("ana@example.com"),
    }
}

#[test]
fn token_round_trips_until_expiry() {
    let token = create_jwt(&claim(), NOW, SECRET).unwrap();
    let s = validate_jwt(token.as_str(), NOW + 1, SECRET).unwrap();
    assert_eq!(s.id, 7);
    assert_eq!(s.user_at, "ana");
    assert_eq!(s.email, "ana@example.com");
    // still live one second before the week is up
    assert!(validate_jwt(token.as_str(), NOW + WEEK_SECS - 1, SECRET).is_ok());
}

#[test]
fn token_fails_after_seven_days() {
    let token = create_jwt(&claim(), NOW, SECRET).unwrap();
    assert!(validate_jwt(token.as_str(), NOW + WEEK_SECS, SECRET).is_err());
    assert!(validate_jwt(token.as_str(), NOW + WEEK_SECS + 1, SECRET).is_err());
}

#[test]
fn token_fails_with_wrong_secret() {
    let token = create_jwt(&claim(), NOW, SECRET).unwrap();
    assert!(validate_jwt(token.as_str(), NOW + 1, "other-secret").is_err());
}

#[test]
fn tampered_token_fails() {
    let token = create_jwt(&claim(), NOW, SECRET).unwrap();
    let mut tampered = String::from(token.as_str());
    tampered.push('x');
    assert!(validate_jwt(tampered.as_str(), NOW + 1, SECRET).is_err());
    assert!(validate_jwt("not.a.token", NOW + 1, SECRET).is_err());
}

#[test]
fn negative_id_round_trips() {
    let sub = Sub {
        id: -12345,
        user_at: String::from("neg"),
        email: String::from("n@e.gg"),
    };
    let token = create_jwt(&sub, NOW, SECRET).unwrap();
    let s = validate_jwt(token.as_str(), NOW + 1, SECRET).unwrap();
    assert_eq!(s.id, -12345);
    assert_eq!(s.user_at, "neg");
    assert_eq!(s.email, "n@e.gg");
}

#[test]
fn hash_verifies_original_and_rejects_other() {
    let hash = hash_str("correct horse").unwrap();
    assert_ne!(hash, "correct horse");
    assert!(compare_password("correct horse", hash.as_str()));
    assert!(!compare_password("wrong horse", hash.as_str()));
    assert!(!compare_password("", hash.as_str()));
    // a malformed stored hash matches nothing
    assert!(!compare_password("correct horse", "not-an-encoded-hash"));
}
