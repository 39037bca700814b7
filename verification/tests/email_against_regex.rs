//! The verified email matcher against the regular-expression engine, on
//! the same fixed pattern.

use regex::Regex;
use socialnet::validate_email;

const EMAIL_PATTERN: &str =
    r"^([a-z0-9_+]([a-z0-9_+.]*[a-z0-9_+])?)@([a-z0-9]+([\-\.]{1}[a-z0-9]+)*\.[a-z]{2,6})$";

#[test]
fn matcher_agrees_with_regex_on_samples() {
    let re = Regex::new(EMAIL_PATTERN).unwrap();
    let samples = [
        "ana@example.com",
        "a@b.co",
        "a.b@c.d.ee",
        "a_b+c.d@my-host.co.uk",
        "a..b@c.dd",
        "a@b..cd",
        "a@b.c",
        "a@b.comedian",
        "A@b.co",
        "a@B.co",
        "a@b-.co",
        "a@-b.co",
        "+a@b.co",
        ".a@b.co",
        "a.@b.co",
        "a@b.c0",
        "a@b.co.uk",
        "a@b_c.co",
        "a b@c.dd",
        "a@b c.dd",
        "@b.co",
        "a@",
        "a@.co",
        "a@b.",
        "aa@bb.cc",
        "1@2.ab",
        "a+b@c-d.ef",
        "a@b.abcdef",
        "a@b.abcdefg",
    ];
    for s in samples {
        assert_eq!(
            validate_email(s).valid,
            re.is_match(s),
            "disagreement on {:?}",
            s
        );
    }
}
