//! Validator behavior on concrete inputs: handles, display names,
//! passwords and emails.

use socialnet::{
    is_brazilian, is_spanish, validate_email, validate_password, validate_user_at,
    validate_user_name,
};

#[test]
fn handle_accepts_plain_and_underscore() {
    assert!(validate_user_at("ana").valid);
    assert!(validate_user_at("an_a").valid);
    assert!(validate_user_at("AnA9").valid);
    assert!(validate_user_at("jo\u{e3}o").valid);
}

#[test]
fn handle_rejects_length_bounds() {
    let r = validate_user_at("a");
    assert!(!r.valid);
    assert_eq!(r.message, "user_at too short");
    let r = validate_user_at("abcdefghijklmnopqrstu");
    assert!(!r.valid);
    assert_eq!(r.message, "user_at too long");
    assert!(validate_user_at("ab").valid);
    assert!(validate_user_at("abcdefghijklmnopqrst").valid);
}

#[test]
fn handle_rejects_bad_characters() {
    let r = validate_user_at("an!a");
    assert!(!r.valid);
    assert_eq!(r.message, "user_at invalid character");
    assert!(!validate_user_at("a b").valid);
    assert!(!validate_user_at("a\u{f1}a").valid);
    assert!(!validate_user_at("a\u{d1}a").valid);
}

#[test]
fn username_allows_unicode_alphanumerics() {
    assert!(validate_user_name("ana").valid);
    assert!(validate_user_name("jos\u{e9}").valid);
    let r = validate_user_name("an!a");
    assert!(!r.valid);
    assert_eq!(r.message, "username invalid character");
    // the excluded letters lose against the general alphanumeric check
    assert!(!validate_user_name("a\u{f1}a").valid);
    // underscore is for handles, not display names
    assert!(!validate_user_name("an_a").valid);
    assert_eq!(validate_user_name("a").message, "username too short");
    assert_eq!(
        validate_user_name("abcdefghijklmnopqrstu").message,
        "username too long"
    );
}

#[test]
fn brazilian_and_spanish_letter_sets() {
    assert!(is_brazilian('\u{e3}'));
    assert!(is_brazilian('\u{c7}'));
    assert!(!is_brazilian('a'));
    assert!(!is_brazilian('\u{f1}'));
    assert!(is_spanish('\u{f1}'));
    assert!(is_spanish('\u{d1}'));
    assert!(!is_spanish('n'));
}

#[test]
fn password_bounds_and_class() {
    assert!(validate_password("abc12345").valid);
    assert!(validate_password("!@# $%^&").valid);
    let r = validate_password("abc1234");
    assert!(!r.valid);
    assert_eq!(r.message, "password too short");
    let r = validate_password("abcdefghijklmnopqrstuvwxyz0123456");
    assert!(!r.valid);
    assert_eq!(r.message, "password too long");
    let r = validate_password("p\u{e4}ssword1");
    assert!(!r.valid);
    assert_eq!(r.message, "password invalid character");
}

#[test]
fn email_shape() {
    assert!(validate_email("ana@example.com").valid);
    assert!(validate_email("a_b+c.d@my-host.co.uk").valid);
    let bad = [
        "",
        "ana",
        "ana@",
        "@example.com",
        "ana@example",
        "ana@example.c",
        "ana@example.combinat",
        "Ana@example.com",
        ".ana@example.com",
        "ana.@example.com",
        "ana@@example.com",
        "ana@exa..mple.com",
        "ana@-example.com",
        "ana@example-.com",
        "an a@example.com",
        "ana@example.c0m",
    ];
    for s in bad {
        let r = validate_email(s);
        assert!(!r.valid, "accepted {:?}", s);
        assert_eq!(r.message, "email invalid email");
    }
}
