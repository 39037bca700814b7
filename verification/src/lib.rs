//! Core logic of a small social-network backend: input validation for
//! user names, handles, emails and passwords; a signed session-token codec;
//! credential hashing; an in-memory relational store with follow/unfollow,
//! posts, comments and likes; and the route-handler pipelines that tie them
//! together.

use vstd::prelude::*;
use vstd::string::StrSliceExecFns;

use routes::types::Reply;

pub mod auth;
pub mod database;
pub mod email;
pub mod routes;

verus! {

/// Result of validating one input field: whether it passed, and the reason
/// when it did not.
pub struct ValidField {
    pub valid: bool,
    pub message: &'static str,
}

/// Longest bio a profile update accepts, in characters.
pub const BIO_MAX_LEN: usize = 200;

// ---------------------------------------------------------------------------
// String helpers
// ---------------------------------------------------------------------------

/// Character-wise string equality.
pub fn str_eq(a: &str, b: &str) -> (r: bool)
    ensures
        r == (a@ == b@),
{
    let n = a.unicode_len();
    let m = b.unicode_len();
    if n != m {
        return false;
    }
    for i in 0..n
        invariant
            n == a@.len(),
            n == b@.len(),
            forall|j: int| 0 <= j < i ==> a@[j] == b@[j],
    {
        if a.get_char(i) != b.get_char(i) {
            return false;
        }
    }
    proof {
        assert(a@ =~= b@);
    }
    true
}

/// The lower-case form of a string, as computed by the standard library.
/// Only what the trusted wrapper below states is known of it.
pub uninterp spec fn lower_of(s: Seq<char>) -> Seq<char>;

/// Relies on str::to_lowercase: the result depends on the characters
/// alone; an empty string stays empty.
#[verifier::external_body]
pub fn lowercase(s: &str) -> (r: String)
    ensures
        r@ == lower_of(s@),
        s@.len() == 0 ==> r@.len() == 0,
{
    s.to_lowercase()
}

/// Unicode whitespace, as decided by the standard library. Only what the
/// trusted specification below states is known of it.
pub uninterp spec fn unicode_whitespace(c: char) -> bool;

/// Relies on char::is_whitespace: true exactly when the character has the
/// Unicode whitespace property, a property of the character alone; the
/// ASCII space has it.
pub assume_specification[ char::is_whitespace ](c: char) -> (r: bool)
    ensures
        r == unicode_whitespace(c),
        c == ' ' ==> r,
;

/// Every character of the string is whitespace; true of the empty string.
pub open spec fn is_blank(s: Seq<char>) -> bool {
    forall|i: int| 0 <= i < s.len() ==> unicode_whitespace(#[trigger] s[i])
}

/// Decides `is_blank`.
pub fn str_blank(s: &str) -> (b: bool)
    ensures
        b == is_blank(s@),
{
    let n = s.unicode_len();
    for i in 0..n
        invariant
            n == s@.len(),
            forall|j: int| 0 <= j < i ==> unicode_whitespace(#[trigger] s@[j]),
    {
        if !s.get_char(i).is_whitespace() {
            return false;
        }
    }
    true
}

// ---------------------------------------------------------------------------
// Character classes
// ---------------------------------------------------------------------------

pub open spec fn is_digit_char(c: char) -> bool {
    48 <= (c as u32) <= 57
}

pub open spec fn is_lower_char(c: char) -> bool {
    97 <= (c as u32) <= 122
}

pub open spec fn is_upper_char(c: char) -> bool {
    65 <= (c as u32) <= 90
}

pub open spec fn is_ascii_alnum_char(c: char) -> bool {
    is_digit_char(c) || is_lower_char(c) || is_upper_char(c)
}

/// The accented letters (Portuguese usage) that user names and handles may
/// contain besides alphanumeric characters.
pub open spec fn spec_is_brazilian(c: char) -> bool {
    ||| c == '\u{e3}' || c == '\u{e1}' || c == '\u{e0}' || c == '\u{e2}'
    ||| c == '\u{e9}' || c == '\u{e8}' || c == '\u{ea}'
    ||| c == '\u{ed}' || c == '\u{ec}' || c == '\u{ee}'
    ||| c == '\u{f5}' || c == '\u{f3}' || c == '\u{f2}' || c == '\u{f4}'
    ||| c == '\u{fa}' || c == '\u{f9}' || c == '\u{fb}'
    ||| c == '\u{e7}'
    ||| c == '\u{c3}' || c == '\u{c1}' || c == '\u{c0}' || c == '\u{c2}'
    ||| c == '\u{c9}' || c == '\u{c8}' || c == '\u{ca}'
    ||| c == '\u{cd}' || c == '\u{cc}' || c == '\u{ce}'
    ||| c == '\u{d5}' || c == '\u{d3}' || c == '\u{d2}' || c == '\u{d4}'
    ||| c == '\u{da}' || c == '\u{d9}' || c == '\u{db}'
    ||| c == '\u{c7}'
}

/// True for the accented letters accepted in user names and handles.
pub fn is_brazilian(c: char) -> (r: bool)
    ensures
        r == spec_is_brazilian(c),
{
    c == '\u{e3}' || c == '\u{e1}' || c == '\u{e0}' || c == '\u{e2}'
        || c == '\u{e9}' || c == '\u{e8}' || c == '\u{ea}'
        || c == '\u{ed}' || c == '\u{ec}' || c == '\u{ee}'
        || c == '\u{f5}' || c == '\u{f3}' || c == '\u{f2}' || c == '\u{f4}'
        || c == '\u{fa}' || c == '\u{f9}' || c == '\u{fb}'
        || c == '\u{e7}'
        || c == '\u{c3}' || c == '\u{c1}' || c == '\u{c0}' || c == '\u{c2}'
        || c == '\u{c9}' || c == '\u{c8}' || c == '\u{ca}'
        || c == '\u{cd}' || c == '\u{cc}' || c == '\u{ce}'
        || c == '\u{d5}' || c == '\u{d3}' || c == '\u{d2}' || c == '\u{d4}'
        || c == '\u{da}' || c == '\u{d9}' || c == '\u{db}'
        || c == '\u{c7}'
}

/// The letters that are always rejected, even though the general
/// alphanumeric check would accept them.
pub open spec fn spec_is_spanish(c: char) -> bool {
    c == '\u{f1}' || c == '\u{d1}'
}

/// True for the letters that are always rejected in user names and handles.
pub fn is_spanish(c: char) -> (r: bool)
    ensures
        r == spec_is_spanish(c),
{
    c == '\u{f1}' || c == '\u{d1}'
}

/// Unicode alphanumericity, as decided by the standard library. Only the
/// facts stated by the trusted specification below are known of it.
pub uninterp spec fn unicode_alphanumeric(c: char) -> bool;

/// Relies on char::is_alphanumeric: true exactly when the character is in
/// one of the Unicode letter or number categories, a property of the
/// character alone; ASCII letters and digits are in those categories.
pub assume_specification[ char::is_alphanumeric ](c: char) -> (r: bool)
    ensures
        r == unicode_alphanumeric(c),
        is_ascii_alnum_char(c) ==> r,
;

// ---------------------------------------------------------------------------
// User name validation
// ---------------------------------------------------------------------------

/// A character acceptable in a display name: Unicode alphanumeric or one of
/// the allowed accented letters, with the excluded letters rejected even
/// though the alphanumeric check accepts them.
pub open spec fn user_name_char_ok(c: char) -> bool {
    (unicode_alphanumeric(c) || spec_is_brazilian(c)) && !spec_is_spanish(c)
}

/// A valid display name: 2 to 20 characters, each acceptable.
pub open spec fn user_name_ok(s: Seq<char>) -> bool {
    &&& 2 <= s.len() <= 20
    &&& forall|i: int| 0 <= i < s.len() ==> user_name_char_ok(#[trigger] s[i])
}

/// Validates a display name: accepted exactly when it has 2 to 20
/// characters, each Unicode-alphanumeric or an allowed accented letter and
/// not an excluded one.
pub fn validate_user_name(user_name: &str) -> (r: ValidField)
    ensures
        r.valid == user_name_ok(user_name@),
        r.valid ==> r.message@ == ""@,
        !r.valid ==> r.message@ == (if user_name@.len() > 20 {
            "username too long"@
        } else if user_name@.len() < 2 {
            "username too short"@
        } else {
            "username invalid character"@
        }),
{
    let n = user_name.unicode_len();
    let mut chars_ok = true;
    for i in 0..n
        invariant
            n == user_name@.len(),
            chars_ok == forall|j: int| 0 <= j < i ==> user_name_char_ok(#[trigger] user_name@[j]),
    {
        let c = user_name.get_char(i);
        if (!c.is_alphanumeric() && !is_brazilian(c)) || is_spanish(c) {
            chars_ok = false;
        }
    }
    if n > 20 {
        ValidField { valid: false, message: "username too long" }
    } else if n < 2 {
        ValidField { valid: false, message: "username too short" }
    } else if !chars_ok {
        ValidField { valid: false, message: "username invalid character" }
    } else {
        ValidField { valid: true, message: "" }
    }
}

// ---------------------------------------------------------------------------
// Handle validation
// ---------------------------------------------------------------------------

/// A character acceptable in a handle: underscore, ASCII alphanumeric or an
/// allowed accented letter, and not an excluded letter.
pub open spec fn user_at_char_ok(c: char) -> bool {
    (c == '_' || is_ascii_alnum_char(c) || spec_is_brazilian(c)) && !spec_is_spanish(c)
}

/// A valid handle: 2 to 20 characters, each acceptable.
pub open spec fn user_at_ok(s: Seq<char>) -> bool {
    &&& 2 <= s.len() <= 20
    &&& forall|i: int| 0 <= i < s.len() ==> user_at_char_ok(#[trigger] s[i])
}

/// Validates a handle: accepted exactly when it has 2 to 20 characters,
/// each an underscore, ASCII alphanumeric or an allowed accented letter,
/// and none of the excluded letters.
pub fn validate_user_at(user_at: &str) -> (r: ValidField)
    ensures
        r.valid == user_at_ok(user_at@),
        r.valid ==> r.message@ == ""@,
        !r.valid ==> r.message@ == (if user_at@.len() > 20 {
            "user_at too long"@
        } else if user_at@.len() < 2 {
            "user_at too short"@
        } else {
            "user_at invalid character"@
        }),
{
    let n = user_at.unicode_len();
    let mut chars_ok = true;
    for i in 0..n
        invariant
            n == user_at@.len(),
            chars_ok == forall|j: int| 0 <= j < i ==> user_at_char_ok(#[trigger] user_at@[j]),
    {
        let c = user_at.get_char(i);
        let u = c as u32;
        let alnum = (48 <= u && u <= 57) || (97 <= u && u <= 122) || (65 <= u && u <= 90);
        if !(c == '_' || ((alnum || is_brazilian(c)) && !is_spanish(c))) {
            chars_ok = false;
        }
        proof {
            assert(c == '_' ==> !spec_is_spanish(c));
        }
    }
    if n > 20 {
        ValidField { valid: false, message: "user_at too long" }
    } else if n < 2 {
        ValidField { valid: false, message: "user_at too short" }
    } else if !chars_ok {
        ValidField { valid: false, message: "user_at invalid character" }
    } else {
        ValidField { valid: true, message: "" }
    }
}

// ---------------------------------------------------------------------------
// Email validation
// ---------------------------------------------------------------------------

/// Validates an email address: accepted exactly when it belongs to the
/// fixed `local@domain.tld` language of `email::email_ok`.
pub fn validate_email(email: &str) -> (r: ValidField)
    ensures
        r.valid == email::email_ok(email@),
        r.valid ==> r.message@ == ""@,
        !r.valid ==> r.message@ == "email invalid email"@,
{
    if email::email_matches(email) {
        ValidField { valid: true, message: "" }
    } else {
        ValidField { valid: false, message: "email invalid email" }
    }
}

// ---------------------------------------------------------------------------
// Password validation
// ---------------------------------------------------------------------------

pub open spec fn is_ascii_char(c: char) -> bool {
    (c as u32) < 128
}

/// A valid password: 8 to 32 characters, each ASCII. The accepted
/// character class is deliberately the full ASCII set rather than only
/// letters and digits.
pub open spec fn password_ok(s: Seq<char>) -> bool {
    &&& 8 <= s.len() <= 32
    &&& forall|i: int| 0 <= i < s.len() ==> is_ascii_char(#[trigger] s[i])
}

/// Validates a password: accepted exactly when it has 8 to 32 characters,
/// all ASCII.
pub fn validate_password(password: &str) -> (r: ValidField)
    ensures
        r.valid == password_ok(password@),
        r.valid ==> r.message@ == ""@,
        !r.valid ==> r.message@ == (if password@.len() > 32 {
            "password too long"@
        } else if password@.len() < 8 {
            "password too short"@
        } else {
            "password invalid character"@
        }),
{
    let n = password.unicode_len();
    let mut chars_ok = true;
    for i in 0..n
        invariant
            n == password@.len(),
            chars_ok == forall|j: int| 0 <= j < i ==> is_ascii_char(#[trigger] password@[j]),
    {
        let c = password.get_char(i);
        if c as u32 >= 128 {
            chars_ok = false;
        }
    }
    if n > 32 {
        ValidField { valid: false, message: "password too long" }
    } else if n < 8 {
        ValidField { valid: false, message: "password too short" }
    } else if !chars_ok {
        ValidField { valid: false, message: "password invalid character" }
    } else {
        ValidField { valid: true, message: "" }
    }
}


/// A registration form is acceptable when, in this order, the display
/// name, the handle, the email and the password each pass their
/// validator; the first failure is reported with its field message.
pub open spec fn minimal_credentials_error(v: crate::database::user::UserFormView) -> Reply {
    if !user_name_ok(v.user_name) {
        Reply {
            status: 400,
            message: (if v.user_name.len() > 20 {
                "username too long"
            } else if v.user_name.len() < 2 {
                "username too short"
            } else {
                "username invalid character"
            }),
        }
    } else if !user_at_ok(v.user_at) {
        Reply {
            status: 400,
            message: (if v.user_at.len() > 20 {
                "user_at too long"
            } else if v.user_at.len() < 2 {
                "user_at too short"
            } else {
                "user_at invalid character"
            }),
        }
    } else if !email::email_ok(v.email) {
        Reply { status: 400, message: "email invalid email" }
    } else if !password_ok(v.password) {
        Reply {
            status: 400,
            message: (if v.password.len() > 32 {
                "password too long"
            } else if v.password.len() < 8 {
                "password too short"
            } else {
                "password invalid character"
            }),
        }
    } else {
        Reply { status: 200, message: "" }
    }
}

/// All four fields of a registration form pass their validators.
pub open spec fn minimal_credentials_ok(v: crate::database::user::UserFormView) -> bool {
    &&& user_name_ok(v.user_name)
    &&& user_at_ok(v.user_at)
    &&& email::email_ok(v.email)
    &&& password_ok(v.password)
}

/// Validates a registration form field by field; the first failing field
/// decides the error.
pub fn validate_minimal_user_credentials(user: &crate::database::user::User) -> (r: Result<
    (),
    Reply,
>)
    ensures
        r is Ok <==> minimal_credentials_ok(user@),
        r matches Err(e) ==> {
            let want = minimal_credentials_error(user@);
            e.status == 400 && e.status == want.status && e.message@ == want.message@
        },
{
    let res = validate_user_name(user.user_name.as_str());
    if !res.valid {
        return Err(Reply { status: 400, message: res.message });
    }
    let res = validate_user_at(user.user_at.as_str());
    if !res.valid {
        return Err(Reply { status: 400, message: res.message });
    }
    let res = validate_email(user.email.as_str());
    if !res.valid {
        return Err(Reply { status: 400, message: res.message });
    }
    let res = validate_password(user.password.as_str());
    if !res.valid {
        return Err(Reply { status: 400, message: res.message });
    }
    Ok(())
}

} // verus!
