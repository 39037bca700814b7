//! The session-check route: reports whether the presented cookie holds a
//! live session token.

use vstd::prelude::*;

use crate::auth::{spec_sub_payload, sub_wf, token_of, validate_jwt, SubView};
use crate::routes::types::Reply;

verus! {

/// Checks the session cookie at time `now`: no cookie is refused
/// outright; a token issued for a well-formed claim with this secret is
/// accepted exactly while it is unexpired.
pub fn validate(cookie: Option<&str>, now: u64, secret: &str) -> (r: Reply)
    ensures
        cookie is None ==> r.status == 403 && r.message@ == "No credentials"@,
        cookie is Some ==> (r.status == 200 && r.message@ == "Authorized"@) || (r.status == 403
            && r.message@ == "Invalid JSON Web Token"@),
        forall|v: SubView, e: u64|
            #![trigger token_of(spec_sub_payload(v), e, secret@)]
            (cookie matches Some(t) && sub_wf(v) && t@ == token_of(spec_sub_payload(v), e, secret@)
                && now < e) ==> r.status == 200,
        forall|v: SubView, e: u64|
            #![trigger token_of(spec_sub_payload(v), e, secret@)]
            (cookie matches Some(t) && sub_wf(v) && t@ == token_of(spec_sub_payload(v), e, secret@)
                && now >= e) ==> r.status == 403,
{
    match cookie {
        None => Reply { status: 403, message: "No credentials" },
        Some(t) => match validate_jwt(t, now, secret) {
            Ok(_) => Reply { status: 200, message: "Authorized" },
            Err(_) => Reply { status: 403, message: "Invalid JSON Web Token" },
        },
    }
}

} // verus!
