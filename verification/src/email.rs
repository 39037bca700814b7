//! The email grammar: a fixed, RFC-light shape `local@domain.tld`.
//!
//! The language is defined by the spec functions below and decided by
//! `email_matches`, which is proved to accept exactly the strings in the
//! language: the local part is lower-case alphanumeric with `_`, `+` and
//! inner dots; the domain is dot- or hyphen-separated lower-case
//! alphanumeric labels; the top-level domain is 2 to 6 lower-case letters.

use vstd::prelude::*;
use vstd::string::StrSliceExecFns;

use crate::{is_digit_char, is_lower_char};

verus! {

/// A character allowed at the ends of the local part: `[a-z0-9_+]`.
pub open spec fn is_local_char(c: char) -> bool {
    is_lower_char(c) || is_digit_char(c) || c == '_' || c == '+'
}

/// A character allowed anywhere in the local part: `[a-z0-9_+.]`.
pub open spec fn is_local_mid_char(c: char) -> bool {
    is_local_char(c) || c == '.'
}

/// A valid local part: nonempty, every character from the inner class,
/// first and last from the end class.
pub open spec fn local_ok(s: Seq<char>) -> bool {
    &&& s.len() >= 1
    &&& is_local_char(s[0])
    &&& is_local_char(s[s.len() - 1])
    &&& forall|i: int| 0 <= i < s.len() ==> is_local_mid_char(#[trigger] s[i])
}

/// A character allowed in a host label: `[a-z0-9]`.
pub open spec fn is_label_char(c: char) -> bool {
    is_lower_char(c) || is_digit_char(c)
}

/// A separator between host labels: a single hyphen or dot.
pub open spec fn is_sep_char(c: char) -> bool {
    c == '-' || c == '.'
}

/// A valid host: nonempty label characters and separators, starting and
/// ending with a label character, with no two adjacent separators.
pub open spec fn host_ok(s: Seq<char>) -> bool {
    &&& s.len() >= 1
    &&& is_label_char(s[0])
    &&& is_label_char(s[s.len() - 1])
    &&& forall|i: int| 0 <= i < s.len() ==> is_label_char(#[trigger] s[i]) || is_sep_char(s[i])
    &&& forall|i: int| 0 <= i < s.len() - 1 ==> !(is_sep_char(#[trigger] s[i]) && is_sep_char(s[i + 1]))
}

/// A valid top-level domain: 2 to 6 lower-case letters.
pub open spec fn tld_ok(s: Seq<char>) -> bool {
    &&& 2 <= s.len() <= 6
    &&& forall|i: int| 0 <= i < s.len() ==> is_lower_char(#[trigger] s[i])
}

/// A valid domain: a host, a dot, and a top-level domain.
pub open spec fn domain_ok(s: Seq<char>) -> bool {
    exists|k: int|
        0 <= k < s.len() && s[k] == '.' && host_ok(s.subrange(0, k)) && tld_ok(
            s.subrange(k + 1, s.len() as int),
        )
}

/// A valid email address: a local part, `@`, and a domain.
pub open spec fn email_ok(s: Seq<char>) -> bool {
    exists|i: int|
        0 <= i < s.len() && s[i] == '@' && local_ok(s.subrange(0, i)) && domain_ok(
            s.subrange(i + 1, s.len() as int),
        )
}

/// Index of the first `@`, if any.
fn find_first_at(s: &str) -> (r: Option<usize>)
    ensures
        match r {
            Some(p) => p < s@.len() && s@[p as int] == '@' && forall|j: int|
                0 <= j < p ==> s@[j] != '@',
            None => forall|j: int| 0 <= j < s@.len() ==> s@[j] != '@',
        },
{
    let n = s.unicode_len();
    for i in 0..n
        invariant
            n == s@.len(),
            forall|j: int| 0 <= j < i ==> s@[j] != '@',
    {
        if s.get_char(i) == '@' {
            return Some(i);
        }
    }
    None
}

/// Index of the last dot in `[lo, hi)`, if any.
fn find_last_dot(s: &str, lo: usize, hi: usize) -> (r: Option<usize>)
    requires
        lo <= hi <= s@.len(),
    ensures
        match r {
            Some(q) => lo <= q < hi && s@[q as int] == '.' && forall|j: int|
                q < j < hi ==> s@[j] != '.',
            None => forall|j: int| lo <= j < hi ==> s@[j] != '.',
        },
{
    let mut i = hi;
    while i > lo
        invariant
            lo <= i <= hi <= s@.len(),
            forall|j: int| i <= j < hi ==> s@[j] != '.',
        decreases i,
    {
        i = i - 1;
        if s.get_char(i) == '.' {
            return Some(i);
        }
    }
    None
}

/// Decides `local_ok` on `s[lo..hi]`.
fn check_local(s: &str, lo: usize, hi: usize) -> (b: bool)
    requires
        lo <= hi <= s@.len(),
    ensures
        b == local_ok(s@.subrange(lo as int, hi as int)),
{
    let ghost sub = s@.subrange(lo as int, hi as int);
    if hi == lo {
        return false;
    }
    let first = s.get_char(lo);
    let ufirst = first as u32;
    if !((97 <= ufirst && ufirst <= 122) || (48 <= ufirst && ufirst <= 57) || first == '_'
        || first == '+') {
        assert(sub[0] == s@[lo as int]);
        return false;
    }
    let last = s.get_char(hi - 1);
    let ulast = last as u32;
    if !((97 <= ulast && ulast <= 122) || (48 <= ulast && ulast <= 57) || last == '_' || last
        == '+') {
        assert(sub[sub.len() - 1] == s@[hi - 1]);
        return false;
    }
    for i in lo..hi
        invariant
            lo <= hi <= s@.len(),
            sub == s@.subrange(lo as int, hi as int),
            forall|j: int| 0 <= j < i - lo ==> is_local_mid_char(#[trigger] sub[j]),
    {
        let c = s.get_char(i);
        let u = c as u32;
        if !((97 <= u && u <= 122) || (48 <= u && u <= 57) || c == '_' || c == '+' || c == '.') {
            assert(sub[i - lo] == s@[i as int]);
            return false;
        }
        assert(sub[i - lo] == s@[i as int]);
    }
    assert(sub[0] == s@[lo as int]);
    assert(sub[sub.len() - 1] == s@[hi - 1]);
    true
}

/// Decides `host_ok` on `s[lo..hi]`.
fn check_host(s: &str, lo: usize, hi: usize) -> (b: bool)
    requires
        lo <= hi <= s@.len(),
    ensures
        b == host_ok(s@.subrange(lo as int, hi as int)),
{
    let ghost sub = s@.subrange(lo as int, hi as int);
    if hi == lo {
        return false;
    }
    let first = s.get_char(lo);
    let ufirst = first as u32;
    if !((97 <= ufirst && ufirst <= 122) || (48 <= ufirst && ufirst <= 57)) {
        assert(sub[0] == s@[lo as int]);
        return false;
    }
    let last = s.get_char(hi - 1);
    let ulast = last as u32;
    if !((97 <= ulast && ulast <= 122) || (48 <= ulast && ulast <= 57)) {
        assert(sub[sub.len() - 1] == s@[hi - 1]);
        return false;
    }
    let mut prev_sep = false;
    for i in lo..hi
        invariant
            lo <= hi <= s@.len(),
            sub == s@.subrange(lo as int, hi as int),
            forall|j: int|
                0 <= j < i - lo ==> is_label_char(#[trigger] sub[j]) || is_sep_char(sub[j]),
            forall|j: int|
                0 <= j < i - lo - 1 ==> !(is_sep_char(#[trigger] sub[j]) && is_sep_char(sub[j + 1])),
            i > lo ==> prev_sep == is_sep_char(sub[i - lo - 1]),
    {
        let c = s.get_char(i);
        let u = c as u32;
        let label = (97 <= u && u <= 122) || (48 <= u && u <= 57);
        let sep = c == '-' || c == '.';
        assert(sub[i - lo] == s@[i as int]);
        if !(label || sep) {
            return false;
        }
        if sep && i > lo && prev_sep {
            return false;
        }
        prev_sep = sep;
    }
    assert(sub[0] == s@[lo as int]);
    assert(sub[sub.len() - 1] == s@[hi - 1]);
    true
}

/// Decides `tld_ok` on `s[lo..hi]`.
fn check_tld(s: &str, lo: usize, hi: usize) -> (b: bool)
    requires
        lo <= hi <= s@.len(),
    ensures
        b == tld_ok(s@.subrange(lo as int, hi as int)),
{
    let ghost sub = s@.subrange(lo as int, hi as int);
    if hi - lo < 2 || hi - lo > 6 {
        return false;
    }
    for i in lo..hi
        invariant
            lo <= hi <= s@.len(),
            sub == s@.subrange(lo as int, hi as int),
            forall|j: int| 0 <= j < i - lo ==> is_lower_char(#[trigger] sub[j]),
    {
        let c = s.get_char(i);
        let u = c as u32;
        assert(sub[i - lo] == s@[i as int]);
        if !(97 <= u && u <= 122) {
            return false;
        }
    }
    true
}

/// Decides `domain_ok` on `s[lo..hi]`.
fn check_domain(s: &str, lo: usize, hi: usize) -> (b: bool)
    requires
        lo <= hi <= s@.len(),
    ensures
        b == domain_ok(s@.subrange(lo as int, hi as int)),
{
    let ghost sub = s@.subrange(lo as int, hi as int);
    match find_last_dot(s, lo, hi) {
        None => {
            assert(!domain_ok(sub)) by {
                assert forall|k: int| 0 <= k < sub.len() implies sub[k] != '.' by {
                    assert(sub[k] == s@[lo + k]);
                }
            }
            false
        },
        Some(q) => {
            let host = check_host(s, lo, q);
            let tld = check_tld(s, q + 1, hi);
            proof {
                assert(sub.subrange(0, q - lo) =~= s@.subrange(lo as int, q as int));
                assert(sub.subrange(q - lo + 1, sub.len() as int) =~= s@.subrange(
                    q + 1,
                    hi as int,
                ));
                assert(sub[q - lo] == s@[q as int]);
                if host && tld {
                    assert(domain_ok(sub));
                }
                if !(host && tld) {
                    assert forall|k: int|
                        0 <= k < sub.len() && sub[k] == '.' && host_ok(sub.subrange(0, k))
                            implies !tld_ok(sub.subrange(k + 1, sub.len() as int)) by {
                        assert(sub[k] == s@[lo + k]);
                        if lo + k < q {
                            // a later dot would sit inside the candidate tld
                            let t = sub.subrange(k + 1, sub.len() as int);
                            assert(t[q - lo - k - 1] == sub[q - lo]);
                            assert(!is_lower_char('.'));
                        } else {
                            // the last dot is the only candidate split
                            assert(lo + k == q);
                            assert(sub.subrange(0, k) =~= s@.subrange(lo as int, q as int));
                            assert(sub.subrange(k + 1, sub.len() as int) =~= s@.subrange(
                                q + 1,
                                hi as int,
                            ));
                        }
                    }
                }
            }
            host && tld
        },
    }
}

/// Decides membership in the email language: true exactly on strings of the
/// shape `local@domain.tld` defined by `email_ok`.
pub fn email_matches(s: &str) -> (b: bool)
    ensures
        b == email_ok(s@),
{
    let n = s.unicode_len();
    match find_first_at(s) {
        None => {
            assert(!email_ok(s@));
            false
        },
        Some(p) => {
            let local = check_local(s, 0, p);
            let domain = check_domain(s, p + 1, n);
            proof {
                if local && domain {
                    assert(email_ok(s@));
                }
                if !(local && domain) {
                    assert forall|i: int|
                        0 <= i < s@.len() && s@[i] == '@' implies !(local_ok(s@.subrange(0, i))
                        && domain_ok(s@.subrange(i + 1, s@.len() as int))) by {
                        if i < p {
                            assert(s@[i] != '@');
                        } else if i > p {
                            // the earlier `@` sits inside the candidate local part
                            let l = s@.subrange(0, i);
                            assert(l[p as int] == s@[p as int]);
                            assert(!is_local_mid_char('@'));
                        } else {
                            assert(s@.subrange(0, p as int) == s@.subrange(0, i));
                        }
                    }
                }
            }
            local && domain
        },
    }
}

} // verus!
