//! Session claims and the signed session-token codec.
//!
//! A claim (`Sub`) names a user by id, handle and email. `create_jwt`
//! frames the claim into a line-based payload, stamps it with a
//! seven-day expiry and signs it; `validate_jwt` checks the signature,
//! checks the expiry against the caller's clock and recovers the claim.
//! Signing and signature checking are delegated to the JWT crate behind
//! trusted contracts; the framing and the expiry rule are verified.

use vstd::prelude::*;
use vstd::string::{StrSliceExecFns, StringExecFns};

pub mod hash;

verus! {

/// Seconds in the fixed session lifetime of one week.
pub const WEEK_SECS: u64 = 604800;

/// The identity payload of a session token.
pub struct Sub {
    pub id: i32,
    pub user_at: String,
    pub email: String,
}

/// Mathematical view of a claim.
pub struct SubView {
    pub id: int,
    pub user_at: Seq<char>,
    pub email: Seq<char>,
}

impl View for Sub {
    type V = SubView;

    open spec fn view(&self) -> SubView {
        SubView { id: self.id as int, user_at: self.user_at@, email: self.email@ }
    }
}

impl Clone for Sub {
    fn clone(&self) -> (r: Self)
        ensures
            r@ == self@,
    {
        Sub { id: self.id, user_at: self.user_at.clone(), email: self.email.clone() }
    }
}

/// A claim that the codec can frame unambiguously: the id fits a 32-bit
/// integer and the handle holds no newline. Handles accepted by
/// validation never contain one.
pub open spec fn sub_wf(v: SubView) -> bool {
    &&& i32::MIN <= v.id <= i32::MAX
    &&& forall|i: int| 0 <= i < v.user_at.len() ==> v.user_at[i] != '\n'
}

// ---------------------------------------------------------------------------
// Decimal representation of the claim id
// ---------------------------------------------------------------------------

pub open spec fn digit_char(d: int) -> char {
    ((48 + d) as u8) as char
}

/// Decimal digits of a natural number, most significant first.
pub open spec fn dec_digits(n: nat) -> Seq<char>
    decreases n,
{
    if n < 10 {
        seq![digit_char(n as int)]
    } else {
        dec_digits(n / 10).push(digit_char((n % 10) as int))
    }
}

/// Decimal representation of an integer, with a leading minus sign when
/// negative.
pub open spec fn spec_int_str(n: int) -> Seq<char> {
    if n < 0 {
        seq!['-'] + dec_digits((-n) as nat)
    } else {
        dec_digits(n as nat)
    }
}

proof fn lemma_dec_digits_props(n: nat)
    ensures
        dec_digits(n).len() >= 1,
        forall|i: int| 0 <= i < dec_digits(n).len() ==> crate::is_digit_char(#[trigger] dec_digits(n)[i]),
    decreases n,
{
    if n >= 10 {
        lemma_dec_digits_props(n / 10);
    }
}

proof fn lemma_int_str_chars(n: int)
    ensures
        spec_int_str(n).len() >= 1,
        forall|i: int| 0 <= i < spec_int_str(n).len() ==> (crate::is_digit_char(
            #[trigger] spec_int_str(n)[i],
        ) || spec_int_str(n)[i] == '-'),
{
    if n < 0 {
        lemma_dec_digits_props((-n) as nat);
        assert forall|i: int| 0 <= i < spec_int_str(n).len() implies (crate::is_digit_char(
            #[trigger] spec_int_str(n)[i],
        ) || spec_int_str(n)[i] == '-') by {
            if i >= 1 {
                assert(spec_int_str(n)[i] == dec_digits((-n) as nat)[i - 1]);
            }
        }
    } else {
        lemma_dec_digits_props(n as nat);
    }
}

/// Relies on String::push: appends the character to the end of the string.
#[verifier::external_body]
fn push_char(s: &mut String, c: char)
    ensures
        final(s)@ == old(s)@.push(c),
{
    s.push(c);
}

/// Decimal formatting of an unsigned value, mirroring `dec_digits`.
fn format_u64(m: u64) -> (s: String)
    ensures
        s@ == dec_digits(m as nat),
    decreases m,
{
    if m < 10 {
        let mut s = String::new();
        push_char(&mut s, ((48 + m as u32) as u8) as char);
        assert(s@ =~= dec_digits(m as nat));
        s
    } else {
        let mut s = format_u64(m / 10);
        push_char(&mut s, ((48 + (m % 10) as u32) as u8) as char);
        assert(s@ =~= dec_digits(m as nat));
        s
    }
}

/// Decimal formatting of a signed 32-bit value, mirroring `spec_int_str`.
fn format_i32(n: i32) -> (s: String)
    ensures
        s@ == spec_int_str(n as int),
{
    let v: i64 = n as i64;
    if v < 0 {
        let mut s = String::new();
        push_char(&mut s, '-');
        let mag = format_u64((-v) as u64);
        s.append(mag.as_str());
        assert(s@ =~= spec_int_str(n as int));
        s
    } else {
        format_u64(n as u64)
    }
}

/// Decimal formatting of a signed 64-bit value, mirroring `spec_int_str`.
pub fn format_i64(n: i64) -> (s: String)
    ensures
        s@ == spec_int_str(n as int),
{
    if n < 0 {
        let mut s = String::new();
        push_char(&mut s, '-');
        let m: u64 = if n == i64::MIN {
            9223372036854775808
        } else {
            (-n) as u64
        };
        proof {
            assert(m as nat == (-(n as int)) as nat);
        }
        let mag = format_u64(m);
        s.append(mag.as_str());
        assert(s@ =~= spec_int_str(n as int));
        s
    } else {
        format_u64(n as u64)
    }
}

/// Reads back a decimal magnitude: on the exact output of `dec_digits`
/// for a value below 2^48 it returns that value.
fn parse_mag(s: &str, lo: usize, hi: usize) -> (r: Option<u64>)
    requires
        lo <= hi <= s@.len(),
    ensures
        forall|m: nat|
            m < 0x1000000000000 && s@.subrange(lo as int, hi as int) == dec_digits(m) ==> r
                == Some(m as u64),
    decreases hi - lo,
{
    let ghost sub = s@.subrange(lo as int, hi as int);
    if hi <= lo {
        proof {
            assert forall|m: nat| m < 0x1000000000000 implies sub != #[trigger] dec_digits(m) by {
                lemma_dec_digits_props(m);
            }
        }
        return None;
    }
    if hi - lo == 1 {
        let c = s.get_char(lo);
        let u = c as u32;
        if 48 <= u && u <= 57 {
            proof {
                assert forall|m: nat|
                    m < 0x1000000000000 && sub == #[trigger] dec_digits(m) implies (u - 48) as u64 == m as u64 by {
                    lemma_dec_digits_props(m);
                    if m >= 10 {
                        lemma_dec_digits_props(m / 10);
                        assert(dec_digits(m).len() >= 2);
                    }
                    assert(sub[0] == c);
                }
            }
            Some((u - 48) as u64)
        } else {
            proof {
                assert forall|m: nat| m < 0x1000000000000 implies sub != #[trigger] dec_digits(m) by {
                    if m < 10 {
                        if sub == #[trigger] dec_digits(m) {
                            assert(sub[0] == digit_char(m as int));
                            assert(c == sub[0]);
                        }
                    } else {
                        lemma_dec_digits_props(m / 10);
                        assert(dec_digits(m).len() >= 2);
                    }
                }
            }
            None
        }
    } else {
        let head = parse_mag(s, lo, hi - 1);
        let c = s.get_char(hi - 1);
        let u = c as u32;
        proof {
            assert forall|m: nat|
                m < 0x1000000000000 && sub == #[trigger] dec_digits(m) implies m >= 10 && s@.subrange(
                lo as int,
                hi - 1,
            ) == dec_digits(m / 10) && c == digit_char((m % 10) as int) by {
                if m < 10 {
                    assert(dec_digits(m).len() == 1);
                } else {
                    assert(dec_digits(m) == dec_digits(m / 10).push(digit_char((m % 10) as int)));
                    assert(s@.subrange(lo as int, hi - 1) =~= dec_digits(m / 10)) by {
                        assert forall|j: int| 0 <= j < hi - 1 - lo implies #[trigger] s@.subrange(
                            lo as int,
                            hi - 1,
                        )[j] == dec_digits(m / 10)[j] by {
                            assert(sub[j] == s@[lo + j]);
                        }
                    }
                    assert(c == sub[sub.len() - 1]);
                }
            }
        }
        match head {
            None => None,
            Some(h) => {
                if 48 <= u && u <= 57 {
                    if h >= 0x200000000000 {
                        proof {
                            assert forall|m: nat|
                                m < 0x1000000000000 && sub == #[trigger] dec_digits(m) implies false by {
                                assert(10 * (m / 10) <= m);
                                assert(h == (m / 10) as u64);
                            }
                        }
                        None
                    } else {
                        let r = Some(h * 10 + (u - 48) as u64);
                        proof {
                            assert forall|m: nat|
                                m < 0x1000000000000 && sub == #[trigger] dec_digits(m) implies r
                                == Some(m as u64) by {
                                assert(h == (m / 10) as u64);
                                assert(c == digit_char((m % 10) as int));
                                assert(u == 48 + (m % 10));
                                assert(m == 10 * (m / 10) + m % 10);
                            }
                        }
                        r
                    }
                } else {
                    proof {
                        assert forall|m: nat|
                            m < 0x1000000000000 && sub == #[trigger] dec_digits(m) implies false by {
                            assert(c == digit_char((m % 10) as int));
                            assert(u == 48 + (m % 10));
                        }
                    }
                    None
                }
            },
        }
    }
}

/// Reads back a signed decimal value: on the exact output of
/// `spec_int_str` for a 32-bit value it returns that value.
fn parse_i32(s: &str, lo: usize, hi: usize) -> (r: Option<i32>)
    requires
        lo <= hi <= s@.len(),
    ensures
        forall|m: int|
            i32::MIN <= m <= i32::MAX && s@.subrange(lo as int, hi as int) == spec_int_str(m) ==> r
                == Some(m as i32),
{
    let ghost sub = s@.subrange(lo as int, hi as int);
    if hi <= lo {
        proof {
            assert forall|m: int| i32::MIN <= m <= i32::MAX implies sub != #[trigger] spec_int_str(m) by {
                lemma_int_str_chars(m);
            }
        }
        return None;
    }
    if s.get_char(lo) == '-' {
        proof {
            assert forall|m: int|
                0 <= m <= i32::MAX && sub == #[trigger] spec_int_str(m) implies false by {
                lemma_dec_digits_props(m as nat);
                assert(sub[0] == dec_digits(m as nat)[0]);
            }
            assert forall|m: int|
                i32::MIN <= m < 0 && sub == #[trigger] spec_int_str(m) implies s@.subrange(lo + 1, hi as int)
                == dec_digits((-m) as nat) by {
                assert(spec_int_str(m) == seq!['-'] + dec_digits((-m) as nat));
                assert(dec_digits((-m) as nat).len() == sub.len() - 1);
                assert(s@.subrange(lo + 1, hi as int) =~= dec_digits((-m) as nat)) by {
                    assert forall|j: int| 0 <= j < hi - lo - 1 implies #[trigger] s@.subrange(
                        lo + 1,
                        hi as int,
                    )[j] == dec_digits((-m) as nat)[j] by {
                        assert(sub[j + 1] == s@[lo + 1 + j]);
                        assert(sub[j + 1] == (seq!['-'] + dec_digits((-m) as nat))[j + 1]);
                        assert(sub[j + 1] == dec_digits((-m) as nat)[j]);
                    }
                }
            }
        }
        match parse_mag(s, lo + 1, hi) {
            Some(h) => {
                if h <= 2147483648 {
                    let neg: i64 = -(h as i64);
                    Some(neg as i32)
                } else {
                    None
                }
            },
            None => None,
        }
    } else {
        proof {
            assert forall|m: int|
                i32::MIN <= m < 0 && sub == #[trigger] spec_int_str(m) implies false by {
                assert(sub[0] == '-');
            }
        }
        match parse_mag(s, lo, hi) {
            Some(h) => {
                if h <= 2147483647 {
                    Some(h as i32)
                } else {
                    None
                }
            },
            None => None,
        }
    }
}

// ---------------------------------------------------------------------------
// Claim payload framing
// ---------------------------------------------------------------------------

/// The framed payload of a claim: decimal id, handle and email on three
/// newline-separated lines. The email may itself contain newlines; the
/// first two line breaks delimit the fields.
pub open spec fn spec_sub_payload(v: SubView) -> Seq<char> {
    spec_int_str(v.id) + seq!['\n'] + v.user_at + seq!['\n'] + v.email
}

/// Frames a claim into its payload string.
pub fn encode_sub(sub: &Sub) -> (p: String)
    ensures
        p@ == spec_sub_payload(sub@),
{
    let mut p = format_i32(sub.id);
    push_char(&mut p, '\n');
    p.append(sub.user_at.as_str());
    push_char(&mut p, '\n');
    p.append(sub.email.as_str());
    assert(p@ =~= spec_sub_payload(sub@));
    p
}

/// Index of the first occurrence of `c` in `s[lo..hi]`, if any.
fn find_char(s: &str, c: char, lo: usize, hi: usize) -> (r: Option<usize>)
    requires
        lo <= hi <= s@.len(),
    ensures
        match r {
            Some(p) => lo <= p < hi && s@[p as int] == c && forall|j: int|
                lo <= j < p ==> s@[j] != c,
            None => forall|j: int| lo <= j < hi ==> s@[j] != c,
        },
{
    for i in lo..hi
        invariant
            lo <= hi <= s@.len(),
            forall|j: int| lo <= j < i ==> s@[j] != c,
    {
        if s.get_char(i) == c {
            return Some(i);
        }
    }
    None
}

/// Unframes a payload string: on the exact output of `encode_sub` for a
/// well-formed claim it returns that claim.
pub fn parse_sub(payload: &str) -> (r: Option<Sub>)
    ensures
        forall|v: SubView|
            sub_wf(v) && payload@ == spec_sub_payload(v) ==> (r matches Some(s) && s@ == v),
{
    let n = payload.unicode_len();
    let ghost pv = payload@;
    proof {
        assert forall|v: SubView|
            sub_wf(v) && pv == spec_sub_payload(v) implies {
            let il = spec_int_str(v.id).len() as int;
            &&& 0 <= il < pv.len()
            &&& pv[il] == '\n'
            &&& (forall|j: int| 0 <= j < il ==> pv[j] != '\n')
            &&& il + 1 + v.user_at.len() < pv.len()
            &&& pv[il + 1 + v.user_at.len()] == '\n'
            &&& (forall|j: int| il < j < il + 1 + v.user_at.len() ==> pv[j] != '\n')
            &&& pv.subrange(0, il) == spec_int_str(v.id)
            &&& pv.subrange(il + 1, il + 1 + v.user_at.len()) == v.user_at
            &&& pv.subrange(il + 1 + v.user_at.len() + 1, pv.len() as int) == v.email
        } by {
            let il = spec_int_str(v.id).len() as int;
            lemma_int_str_chars(v.id);
            assert forall|j: int| 0 <= j < il implies pv[j] != '\n' by {
                assert(pv[j] == spec_int_str(v.id)[j]);
                assert(crate::is_digit_char(pv[j]) || pv[j] == '-');
            }
            assert forall|j: int| il < j < il + 1 + v.user_at.len() implies pv[j] != '\n' by {
                assert(pv[j] == v.user_at[j - il - 1]);
            }
            assert(pv.subrange(0, il) =~= spec_int_str(v.id));
            assert(pv.subrange(il + 1, il + 1 + v.user_at.len()) =~= v.user_at);
            assert(pv.subrange(il + 1 + v.user_at.len() + 1, pv.len() as int) =~= v.email);
        }
    }
    let p1 = match find_char(payload, '\n', 0, n) {
        Some(p) => p,
        None => {
            return None;
        },
    };
    let p2 = match find_char(payload, '\n', p1 + 1, n) {
        Some(p) => p,
        None => {
            return None;
        },
    };
    let id = match parse_i32(payload, 0, p1) {
        Some(i) => i,
        None => {
            return None;
        },
    };
    let user_at = payload.substring_char(p1 + 1, p2).to_owned();
    let email = payload.substring_char(p2 + 1, n).to_owned();
    Some(Sub { id, user_at, email })
}

// ---------------------------------------------------------------------------
// Token signing and validation
// ---------------------------------------------------------------------------

/// The signed token produced for a payload, expiry and signing secret: a
/// function of the three alone, decided by the JWT crate.
pub uninterp spec fn token_of(payload: Seq<char>, exp: u64, secret: Seq<char>) -> Seq<char>;

/// Relies on jsonwebtoken::encode with the default header: signs the
/// claims record {sub, exp} with the HMAC secret. The token depends on
/// the payload, the expiry and the secret alone. The HS256 arm of the
/// signer is infallible and serializing the default header and a
/// string-keyed claims map cannot fail, so the call always succeeds.
#[verifier::external_body]
fn sign_token(payload: &str, exp: u64, secret: &str) -> (r: Result<String, ()>)
    ensures
        r is Ok,
        r matches Ok(t) ==> t@ == token_of(payload@, exp, secret@),
{
    let mut claims = serde_json::Map::new();
    claims.insert("sub".to_string(), serde_json::Value::String(payload.to_string()));
    claims.insert("exp".to_string(), serde_json::Value::from(exp));
    let key = jsonwebtoken::EncodingKey::from_secret(secret.as_bytes());
    match jsonwebtoken::encode(&jsonwebtoken::Header::default(), &claims, &key) {
        Ok(t) => Ok(t),
        Err(_) => Err(()),
    }
}

/// Relies on jsonwebtoken::decode with HS256 and expiry checking turned
/// off: verifies the signature with the secret and returns the claims
/// record. Decoding a token that jsonwebtoken::encode produced with the
/// same secret yields the payload and expiry it was built from.
#[verifier::external_body]
fn verify_token(token: &str, secret: &str) -> (r: Option<(String, u64)>)
    ensures
        r is None ==> forall|p: Seq<char>, e: u64| token@ != #[trigger] token_of(p, e, secret@),
        r matches Some(c) ==> forall|p: Seq<char>, e: u64|
            token@ == #[trigger] token_of(p, e, secret@) ==> (c.0@ == p && c.1 == e),
{
    let mut validation = jsonwebtoken::Validation::new(jsonwebtoken::Algorithm::HS256);
    validation.validate_exp = false;
    let key = jsonwebtoken::DecodingKey::from_secret(secret.as_bytes());
    let parsed = jsonwebtoken::decode::<serde_json::Map<String, serde_json::Value>>(
        token, &key, &validation,
    );
    let data = match parsed {
        Ok(d) => d.claims,
        Err(_) => return None,
    };
    let sub = match data.get("sub") {
        Some(serde_json::Value::String(s)) => s.clone(),
        _ => return None,
    };
    data.get("exp").and_then(|v| v.as_u64()).map(|exp| (sub, exp))
}

/// Issues a session token for the claim, expiring one week after `now`
/// (seconds since the epoch): signing with the HMAC secret always
/// succeeds.
pub fn create_jwt(claims: &Sub, now: u64, secret: &str) -> (r: Result<String, ()>)
    requires
        now <= u64::MAX - WEEK_SECS,
    ensures
        r is Ok,
        r matches Ok(t) ==> t@ == token_of(
            spec_sub_payload(claims@),
            (now + WEEK_SECS) as u64,
            secret@,
        ),
{
    let payload = encode_sub(claims);
    sign_token(payload.as_str(), now + WEEK_SECS, secret)
}

/// Validates a session token at time `now` (seconds since the epoch): a
/// token issued for a well-formed claim with the same secret yields
/// exactly that claim while `now` is before its expiry, and fails once
/// the expiry is reached.
pub fn validate_jwt(token: &str, now: u64, secret: &str) -> (r: Result<Sub, ()>)
    ensures
        forall|v: SubView, e: u64|
            sub_wf(v) && token@ == #[trigger] token_of(spec_sub_payload(v), e, secret@) && now < e
                ==> (r matches Ok(s) && s@ == v),
        forall|v: SubView, e: u64|
            sub_wf(v) && token@ == #[trigger] token_of(spec_sub_payload(v), e, secret@) && now >= e
                ==> r is Err,
{
    match verify_token(token, secret) {
        None => Err(()),
        Some((payload, exp)) => {
            if now < exp {
                match parse_sub(payload.as_str()) {
                    Some(s) => Ok(s),
                    None => Err(()),
                }
            } else {
                Err(())
            }
        },
    }
}

} // verus!
