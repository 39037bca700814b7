//! Mutating account routes: password, email, handle and profile changes,
//! the follow toggle, and post edits.

use vstd::prelude::*;
use vstd::string::StrSliceExecFns;

use crate::auth::hash::{hash_str, verifies};
use crate::auth::{
    create_jwt, spec_sub_payload, sub_wf, token_of, validate_jwt, SubView, WEEK_SECS,
};
use crate::database::{
    db_wf, db_with_users, email_idx, email_taken, has_credentials, has_post_id, has_user_id,
    post_idx, spec_follow, spec_is_following, spec_unfollow, user_at_idx, user_at_taken,
    user_id_idx, Database, DbView, PostRowView, UserRowView,
};
use crate::routes::types::{
    AuthReply, EmailChangeData, PasswordChangeData, ProfileUpdate, Reply, UserAtChangeData,
};
use crate::{
    lower_of, lowercase, password_ok, user_at_ok, user_name_ok, validate_email, validate_password,
    validate_user_at, validate_user_name, BIO_MAX_LEN,
};

verus! {

/// The body of a follow or unfollow request.
pub struct FollowData {
    pub user_at: String,
    pub follow: bool,
    pub icon: Option<Vec<i32>>,
}

/// The body of a post edit request.
pub struct EditPostData {
    pub text: String,
    pub image: String,
}

/// A handle with one leading `@`, if any, taken off.
pub open spec fn strip_at(s: Seq<char>) -> Seq<char> {
    if s.len() > 0 && s[0] == '@' {
        s.subrange(1, s.len() as int)
    } else {
        s
    }
}

/// Changes the caller's password: the new password must validate, the
/// session must be live and match the stored identity, the current
/// password must verify against the stored hash, and the new one must
/// not; the new hash is then stored.
pub fn change_password(
    db: &mut Database,
    form_data: &PasswordChangeData,
    cookie: Option<&str>,
    now: u64,
    secret: &str,
) -> (r: Reply)
    requires
        db_wf(old(db)@),
    ensures
        db_wf(final(db)@),
        cookie is None ==> (r.status == 403 && r.message@ == "Unauthorized user"@ && final(db)@
            == old(db)@),
        cookie is Some && !password_ok(form_data.new_password@) ==> (r.status == 400 && final(db)@
            == old(db)@ && r.message@ == (if form_data.new_password@.len() > 32 {
            "password too long"@
        } else if form_data.new_password@.len() < 8 {
            "password too short"@
        } else {
            "password invalid character"@
        })),
        forall|v: SubView, e: u64|
            #![trigger token_of(spec_sub_payload(v), e, secret@)]
            (password_ok(form_data.new_password@) && (cookie matches Some(c) && sub_wf(v) && c@
                == token_of(spec_sub_payload(v), e, secret@) && now < e)) ==> (if !has_credentials(
                old(db)@,
                v,
            ) {
                r.status == 403 && r.message@ == "Unauthorized user"@ && final(db)@ == old(db)@
            } else if !verifies(
                old(db)@.users[email_idx(old(db)@, v.email)].password,
                form_data.current_password@,
            ) {
                r.status == 403 && r.message@ == "Current password doesn't match"@ && final(db)@
                    == old(db)@
            } else if verifies(
                old(db)@.users[email_idx(old(db)@, v.email)].password,
                form_data.new_password@,
            ) {
                r.status == 400 && r.message@ == "New password cannot be the same as the old one"@
                    && final(db)@ == old(db)@
            } else {
                r.status == 200 && r.message@ == "Password changed succesfully"@ && (exists|
                    h: Seq<char>,
                |
                    #[trigger] verifies(h, form_data.new_password@) && final(db)@ == db_with_users(
                        old(db)@,
                        old(db)@.users.update(
                            email_idx(old(db)@, v.email),
                            (UserRowView {
                                password: h,
                                ..old(db)@.users[email_idx(old(db)@, v.email)]
                            }),
                        ),
                    ))
            }),
        forall|v: SubView, e: u64|
            #![trigger token_of(spec_sub_payload(v), e, secret@)]
            (password_ok(form_data.new_password@) && (cookie matches Some(c) && sub_wf(v) && c@
                == token_of(spec_sub_payload(v), e, secret@) && now >= e)) ==> (r.status == 403
                && r.message@ == "Unauthorized user"@ && final(db)@ == old(db)@),
{
    let ghost d0 = db@;
    let c = match cookie {
        None => {
            return Reply { status: 403, message: "Unauthorized user" };
        },
        Some(c) => c,
    };
    let valid_password = validate_password(form_data.new_password.as_str());
    if !valid_password.valid {
        return Reply { status: 400, message: valid_password.message };
    }
    let s = match validate_jwt(c, now, secret) {
        Ok(s) => s,
        Err(()) => {
            return Reply { status: 403, message: "Unauthorized user" };
        },
    };
    if !db.user_has_credentials(&s) {
        return Reply { status: 403, message: "Unauthorized user" };
    }
    proof {
        let i = choose|i: int|
            0 <= i < d0.users.len() && (#[trigger] d0.users[i]).email == s@.email && d0.users[i].id
                == s@.id && d0.users[i].user_at == s@.user_at;
        crate::database::lemma_email_unique(d0, i, email_idx(d0, s@.email));
    }
    if !db.verify_password(s.email.as_str(), form_data.current_password.as_str()) {
        return Reply { status: 403, message: "Current password doesn't match" };
    }
    if db.verify_password(s.email.as_str(), form_data.new_password.as_str()) {
        return Reply { status: 400, message: "New password cannot be the same as the old one" };
    }
    let hashed = match hash_str(form_data.new_password.as_str()) {
        Ok(h) => h,
        Err(()) => {
            return Reply { status: 500, message: "InternalServerError" };
        },
    };
    let ghost hview = hashed@;
    match db.change_password(s.email.as_str(), hashed.as_str()) {
        Ok(()) => Reply { status: 200, message: "Password changed succesfully" },
        Err(_) => Reply { status: 500, message: "InternalServerError" },
    }
}

/// Changes the caller's email: the new email is lowered and validated,
/// the session must be live and match the stored identity, the new email
/// must differ from the old and be free; the row is updated and a fresh
/// token for the new identity issued.
pub fn change_email(
    db: &mut Database,
    form_data: &EmailChangeData,
    cookie: Option<&str>,
    now: u64,
    secret: &str,
) -> (r: AuthReply)
    requires
        db_wf(old(db)@),
        now <= u64::MAX - WEEK_SECS,
    ensures
        db_wf(final(db)@),
        cookie is None ==> (r.status == 403 && r.message@ == "Unauthorized user"@ && final(db)@
            == old(db)@ && r.token is None),
        cookie is Some && !crate::email::email_ok(lower_of(form_data.email@)) ==> (r.status == 400
            && r.message@ == "email invalid email"@ && final(db)@ == old(db)@ && r.token is None),
        forall|v: SubView, e: u64|
            #![trigger token_of(spec_sub_payload(v), e, secret@)]
            (crate::email::email_ok(lower_of(form_data.email@)) && (cookie matches Some(c)
                && sub_wf(v) && c@ == token_of(spec_sub_payload(v), e, secret@) && now < e)) ==> (
            if !has_credentials(old(db)@, v) {
                r.status == 403 && r.message@ == "Unauthorized user"@ && final(db)@ == old(db)@
                    && r.token is None
            } else if v.email == lower_of(form_data.email@) {
                r.status == 400 && r.message@ == "New email cannot be the same as the old one"@
                    && final(db)@ == old(db)@ && r.token is None
            } else if email_taken(old(db)@, lower_of(form_data.email@)) {
                r.status == 400 && r.message@ == "Email already exists"@ && final(db)@ == old(db)@
                    && r.token is None
            } else {
                final(db)@ == db_with_users(
                    old(db)@,
                    old(db)@.users.update(
                        email_idx(old(db)@, v.email),
                        (UserRowView {
                            email: lower_of(form_data.email@),
                            ..old(db)@.users[email_idx(old(db)@, v.email)]
                        }),
                    ),
                ) && r.status == 200 && r.message@ == "Email changed succesfully"@ && (r.token
                    matches Some(t) && t@ == token_of(
                    spec_sub_payload(
                        (SubView {
                            id: v.id,
                            user_at: v.user_at,
                            email: lower_of(form_data.email@),
                        }),
                    ),
                    (now + WEEK_SECS) as u64,
                    secret@,
                ))
            }),
        forall|v: SubView, e: u64|
            #![trigger token_of(spec_sub_payload(v), e, secret@)]
            (crate::email::email_ok(lower_of(form_data.email@)) && (cookie matches Some(c)
                && sub_wf(v) && c@ == token_of(spec_sub_payload(v), e, secret@) && now >= e)) ==> (
            r.status == 403 && r.message@ == "Unauthorized user"@ && final(db)@ == old(db)@
                && r.token is None),
{
    let ghost d0 = db@;
    let c = match cookie {
        None => {
            return AuthReply { status: 403, message: "Unauthorized user", token: None };
        },
        Some(c) => c,
    };
    let new_email = lowercase(form_data.email.as_str());
    let valid_email = validate_email(new_email.as_str());
    if !valid_email.valid {
        return AuthReply { status: 400, message: valid_email.message, token: None };
    }
    let s = match validate_jwt(c, now, secret) {
        Ok(s) => s,
        Err(()) => {
            return AuthReply { status: 403, message: "Unauthorized user", token: None };
        },
    };
    if !db.user_has_credentials(&s) {
        return AuthReply { status: 403, message: "Unauthorized user", token: None };
    }
    proof {
        let i = choose|i: int|
            0 <= i < d0.users.len() && (#[trigger] d0.users[i]).email == s@.email && d0.users[i].id
                == s@.id && d0.users[i].user_at == s@.user_at;
        crate::database::lemma_email_unique(d0, i, email_idx(d0, s@.email));
    }
    if crate::str_eq(s.email.as_str(), new_email.as_str()) {
        return AuthReply {
            status: 400,
            message: "New email cannot be the same as the old one",
            token: None,
        };
    }
    if db.email_exists(new_email.as_str()) {
        return AuthReply { status: 400, message: "Email already exists", token: None };
    }
    match db.change_email(s.email.as_str(), new_email.as_str()) {
        Ok(()) => {},
        Err(_) => {
            return AuthReply { status: 500, message: "InternalServerError", token: None };
        },
    }
    let claims = crate::auth::Sub { id: s.id, user_at: s.user_at, email: new_email };
    match create_jwt(&claims, now, secret) {
        Ok(t) => AuthReply { status: 200, message: "Email changed succesfully", token: Some(t) },
        Err(()) => AuthReply { status: 500, message: "InternalServerError", token: None },
    }
}

/// Changes the caller's handle: the new handle is lowered, a leading `@`
/// taken off, and validated; it must differ from the old and be free;
/// the row is updated and a fresh token for the new identity issued.
pub fn change_user_at(
    db: &mut Database,
    form_data: &UserAtChangeData,
    cookie: Option<&str>,
    now: u64,
    secret: &str,
) -> (r: AuthReply)
    requires
        db_wf(old(db)@),
        now <= u64::MAX - WEEK_SECS,
    ensures
        db_wf(final(db)@),
        cookie is None ==> (r.status == 403 && r.message@ == "Unauthorized user"@ && final(db)@
            == old(db)@ && r.token is None),
        cookie is Some && !user_at_ok(strip_at(lower_of(form_data.user_at@))) ==> (r.status == 400
            && final(db)@ == old(db)@ && r.token is None && r.message@ == (if strip_at(
            lower_of(form_data.user_at@),
        ).len() > 20 {
            "user_at too long"@
        } else if strip_at(lower_of(form_data.user_at@)).len() < 2 {
            "user_at too short"@
        } else {
            "user_at invalid character"@
        })),
        forall|v: SubView, e: u64|
            #![trigger token_of(spec_sub_payload(v), e, secret@)]
            (user_at_ok(strip_at(lower_of(form_data.user_at@))) && (cookie matches Some(c)
                && sub_wf(v) && c@ == token_of(spec_sub_payload(v), e, secret@) && now < e)) ==> (
            if strip_at(lower_of(form_data.user_at@)) == v.user_at {
                r.status == 400 && r.message@ == "New userat cannot be the same as the old one"@
                    && final(db)@ == old(db)@ && r.token is None
            } else if !has_credentials(old(db)@, v) {
                r.status == 403 && r.message@ == "Unauthorized user"@ && final(db)@ == old(db)@
                    && r.token is None
            } else if user_at_taken(old(db)@, strip_at(lower_of(form_data.user_at@))) {
                r.status == 400 && r.message@ == "UserAt already in use"@ && final(db)@ == old(db)@
                    && r.token is None
            } else {
                final(db)@ == db_with_users(
                    old(db)@,
                    old(db)@.users.update(
                        email_idx(old(db)@, v.email),
                        (UserRowView {
                            user_at: strip_at(lower_of(form_data.user_at@)),
                            ..old(db)@.users[email_idx(old(db)@, v.email)]
                        }),
                    ),
                ) && r.status == 200 && r.message@ == "User_at changed succesfully"@ && (r.token
                    matches Some(t) && t@ == token_of(
                    spec_sub_payload(
                        (SubView {
                            id: v.id,
                            user_at: strip_at(lower_of(form_data.user_at@)),
                            email: v.email,
                        }),
                    ),
                    (now + WEEK_SECS) as u64,
                    secret@,
                ))
            }),
        forall|v: SubView, e: u64|
            #![trigger token_of(spec_sub_payload(v), e, secret@)]
            (user_at_ok(strip_at(lower_of(form_data.user_at@))) && (cookie matches Some(c)
                && sub_wf(v) && c@ == token_of(spec_sub_payload(v), e, secret@) && now >= e)) ==> (
            r.status == 403 && r.message@ == "Unauthorized user"@ && final(db)@ == old(db)@
                && r.token is None),
{
    let ghost d0 = db@;
    let c = match cookie {
        None => {
            return AuthReply { status: 403, message: "Unauthorized user", token: None };
        },
        Some(c) => c,
    };
    let lowered = lowercase(form_data.user_at.as_str());
    let n = lowered.as_str().unicode_len();
    let new_user_at = if n > 0 && lowered.as_str().get_char(0) == '@' {
        lowered.as_str().substring_char(1, n).to_owned()
    } else {
        lowered
    };
    proof {
        assert(new_user_at@ == strip_at(lower_of(form_data.user_at@)));
    }
    let valid_user_at = validate_user_at(new_user_at.as_str());
    if !valid_user_at.valid {
        return AuthReply { status: 400, message: valid_user_at.message, token: None };
    }
    let s = match validate_jwt(c, now, secret) {
        Ok(s) => s,
        Err(()) => {
            return AuthReply { status: 403, message: "Unauthorized user", token: None };
        },
    };
    if crate::str_eq(new_user_at.as_str(), s.user_at.as_str()) {
        return AuthReply {
            status: 400,
            message: "New userat cannot be the same as the old one",
            token: None,
        };
    }
    if !db.user_has_credentials(&s) {
        return AuthReply { status: 403, message: "Unauthorized user", token: None };
    }
    proof {
        let i = choose|i: int|
            0 <= i < d0.users.len() && (#[trigger] d0.users[i]).email == s@.email && d0.users[i].id
                == s@.id && d0.users[i].user_at == s@.user_at;
        crate::database::lemma_email_unique(d0, i, email_idx(d0, s@.email));
    }
    if db.user_exists(new_user_at.as_str()) {
        return AuthReply { status: 400, message: "UserAt already in use", token: None };
    }
    match db.change_user_at(s.email.as_str(), new_user_at.as_str()) {
        Ok(()) => {},
        Err(_) => {
            return AuthReply { status: 500, message: "InternalServerError", token: None };
        },
    }
    let claims = crate::auth::Sub { id: s.id, user_at: new_user_at, email: s.email };
    match create_jwt(&claims, now, secret) {
        Ok(t) => AuthReply { status: 200, message: "User_at changed succesfully", token: Some(t) },
        Err(()) => AuthReply { status: 500, message: "InternalServerError", token: None },
    }
}

/// Follows or unfollows by handle: the caller may not follow themselves,
/// their own handle must still exist, the target must exist; the paired
/// lists and counts are then updated both ways.
pub fn follow_user(db: &mut Database, data: &FollowData, cookie: Option<&str>, now: u64, secret: &str) -> (r: Reply)
    requires
        db_wf(old(db)@),
    ensures
        db_wf(final(db)@),
        cookie is None ==> (r.status == 403 && r.message@ == "Unauthorized"@ && final(db)@ == old(
            db,
        )@),
        forall|v: SubView, e: u64|
            #![trigger token_of(spec_sub_payload(v), e, secret@)]
            (cookie matches Some(c) && sub_wf(v) && c@ == token_of(spec_sub_payload(v), e, secret@)
                && now < e) ==> (if v.user_at == data.user_at@ {
                r.status == 400 && r.message@ == "You can't follow yourself"@ && final(db)@ == old(
                    db,
                )@
            } else if !user_at_taken(old(db)@, v.user_at) {
                r.status == 403 && r.message@ == "Unauthorized"@ && final(db)@ == old(db)@
            } else if !user_at_taken(old(db)@, data.user_at@) {
                r.status == 400 && r.message@ == "User doesn't exist"@ && final(db)@ == old(db)@
            } else if data.follow {
                if has_user_id(old(db)@, v.id as i32) && old(db)@.users[
                    user_at_idx(old(db)@, data.user_at@)
                ].id != v.id as i32 && !spec_is_following(
                    old(db)@,
                    v.id as i32,
                    old(db)@.users[user_at_idx(old(db)@, data.user_at@)].id,
                ) && old(db)@.users[user_at_idx(old(db)@, data.user_at@)].followers_count < i32::MAX
                    && old(db)@.users[user_id_idx(old(db)@, v.id as i32)].following_count
                    < i32::MAX {
                    r.status == 200 && r.message@ == "Ok"@ && final(db)@ == db_with_users(
                        old(db)@,
                        spec_follow(
                            old(db)@.users,
                            old(db)@.users[user_at_idx(old(db)@, data.user_at@)].id,
                            v.id as i32,
                        ),
                    )
                } else {
                    r.status == 500 && final(db)@ == old(db)@
                }
            } else {
                if has_user_id(old(db)@, v.id as i32) && spec_is_following(
                    old(db)@,
                    v.id as i32,
                    old(db)@.users[user_at_idx(old(db)@, data.user_at@)].id,
                ) {
                    r.status == 200 && r.message@ == "Ok"@ && final(db)@ == db_with_users(
                        old(db)@,
                        spec_unfollow(
                            old(db)@.users,
                            old(db)@.users[user_at_idx(old(db)@, data.user_at@)].id,
                            v.id as i32,
                        ),
                    )
                } else {
                    r.status == 500 && final(db)@ == old(db)@
                }
            }),
        forall|v: SubView, e: u64|
            #![trigger token_of(spec_sub_payload(v), e, secret@)]
            (cookie matches Some(c) && sub_wf(v) && c@ == token_of(spec_sub_payload(v), e, secret@)
                && now >= e) ==> (r.status == 403 && r.message@ == "Unauthorized"@ && final(db)@
                == old(db)@),
{
    let ghost d0 = db@;
    let c = match cookie {
        None => {
            return Reply { status: 403, message: "Unauthorized" };
        },
        Some(c) => c,
    };
    let sub = match validate_jwt(c, now, secret) {
        Ok(s) => s,
        Err(()) => {
            return Reply { status: 403, message: "Unauthorized" };
        },
    };
    if crate::str_eq(sub.user_at.as_str(), data.user_at.as_str()) {
        return Reply { status: 400, message: "You can't follow yourself" };
    }
    if !db.user_exists(sub.user_at.as_str()) {
        return Reply { status: 403, message: "Unauthorized" };
    }
    let ti = match db.idx_by_user_at(data.user_at.as_str()) {
        Some(i) => i,
        None => {
            return Reply { status: 400, message: "User doesn't exist" };
        },
    };
    proof {
        crate::database::lemma_user_at_unique(d0, ti as int, user_at_idx(d0, data.user_at@));
    }
    let follow_target_id = db.users[ti].id;
    if data.follow {
        match db.follow_user(follow_target_id, sub.id) {
            Ok(()) => Reply { status: 200, message: "Ok" },
            Err(_) => Reply { status: 500, message: "InternalServerError" },
        }
    } else {
        match db.unfollow_user(follow_target_id, sub.id) {
            Ok(()) => Reply { status: 200, message: "Ok" },
            Err(_) => Reply { status: 500, message: "InternalServerError" },
        }
    }
}

/// The caller's row after a profile update: new display name, bio and
/// icon.
pub open spec fn spec_profile_update(
    d: DbView,
    em: Seq<char>,
    name: Seq<char>,
    bio: Seq<char>,
    icon: Seq<char>,
) -> DbView {
    if email_taken(d, em) {
        db_with_users(
            d,
            d.users.update(
                email_idx(d, em),
                UserRowView {
                    user_name: name,
                    bio: Some(bio),
                    icon: Some(icon),
                    ..d.users[email_idx(d, em)]
                },
            ),
        )
    } else {
        d
    }
}

/// Updates the caller's display name, bio and icon: the session must be
/// live, the bio within its cap and the display name valid.
pub fn change_profile(
    db: &mut Database,
    profile_data: &ProfileUpdate,
    cookie: Option<&str>,
    now: u64,
    secret: &str,
) -> (r: Reply)
    requires
        db_wf(old(db)@),
    ensures
        db_wf(final(db)@),
        cookie is None ==> (r.status == 403 && r.message@ == "forbidden"@ && final(db)@ == old(
            db,
        )@),
        forall|v: SubView, e: u64|
            #![trigger token_of(spec_sub_payload(v), e, secret@)]
            (cookie matches Some(c) && sub_wf(v) && c@ == token_of(spec_sub_payload(v), e, secret@)
                && now < e) ==> (if profile_data.bio@.len() > BIO_MAX_LEN {
                r.status == 400 && r.message@ == "bio too long"@ && final(db)@ == old(db)@
            } else if !user_name_ok(profile_data.username@) {
                r.status == 400 && final(db)@ == old(db)@ && r.message@ == (
                if profile_data.username@.len() > 20 {
                    "username too long"@
                } else if profile_data.username@.len() < 2 {
                    "username too short"@
                } else {
                    "username invalid character"@
                })
            } else {
                r.status == 200 && r.message@ == "Ok"@ && final(db)@ == spec_profile_update(
                    old(db)@,
                    v.email,
                    profile_data.username@,
                    profile_data.bio@,
                    profile_data.icon@,
                )
            }),
        forall|v: SubView, e: u64|
            #![trigger token_of(spec_sub_payload(v), e, secret@)]
            (cookie matches Some(c) && sub_wf(v) && c@ == token_of(spec_sub_payload(v), e, secret@)
                && now >= e) ==> (r.status == 403 && r.message@ == "forbidden"@ && final(db)@
                == old(db)@),
{
    let ghost d0 = db@;
    let c = match cookie {
        None => {
            return Reply { status: 403, message: "forbidden" };
        },
        Some(c) => c,
    };
    let s = match validate_jwt(c, now, secret) {
        Ok(s) => s,
        Err(()) => {
            return Reply { status: 403, message: "forbidden" };
        },
    };
    if profile_data.bio.as_str().unicode_len() > BIO_MAX_LEN {
        return Reply { status: 400, message: "bio too long" };
    }
    let res = validate_user_name(profile_data.username.as_str());
    if !res.valid {
        return Reply { status: 400, message: res.message };
    }
    let ghost taken = email_taken(d0, s@.email);
    let ghost idx = email_idx(d0, s@.email);
    match db.change_bio(s.email.as_str(), profile_data.bio.as_str()) {
        Ok(()) => {},
        Err(_) => {
            return Reply { status: 500, message: "InternalServerError" };
        },
    }
    proof {
        if taken {
            let d1 = db@;
            assert(d1.users[idx].email == d0.users[idx].email);
            assert(email_taken(d1, s@.email));
            crate::database::lemma_email_unique(d1, idx, email_idx(d1, s@.email));
        }
    }
    match db.change_username(s.email.as_str(), profile_data.username.as_str()) {
        Ok(()) => {},
        Err(_) => {
            return Reply { status: 500, message: "InternalServerError" };
        },
    }
    proof {
        if taken {
            let d2 = db@;
            assert(d2.users[idx].email == d0.users[idx].email);
            assert(email_taken(d2, s@.email));
            crate::database::lemma_email_unique(d2, idx, email_idx(d2, s@.email));
        }
    }
    match db.change_icon(s.email.as_str(), profile_data.icon.as_str()) {
        Ok(()) => {},
        Err(_) => {
            return Reply { status: 500, message: "InternalServerError" };
        },
    }
    proof {
        if taken {
            assert(db@.users =~= spec_profile_update(
                d0,
                s@.email,
                profile_data.username@,
                profile_data.bio@,
                profile_data.icon@,
            ).users);
            assert(db@ == spec_profile_update(
                d0,
                s@.email,
                profile_data.username@,
                profile_data.bio@,
                profile_data.icon@,
            ));
        }
    }
    Reply { status: 200, message: "Ok" }
}

/// Edits a post's text and image: the session must be live and match the
/// stored identity; an unknown post id edits no rows.
pub fn edit_post(
    db: &mut Database,
    data: &EditPostData,
    post_id: i32,
    cookie: Option<&str>,
    now: u64,
    secret: &str,
) -> (r: Reply)
    requires
        db_wf(old(db)@),
    ensures
        db_wf(final(db)@),
        cookie is None ==> (r.status == 403 && r.message@ == "forbidden"@ && final(db)@ == old(
            db,
        )@),
        forall|v: SubView, e: u64|
            #![trigger token_of(spec_sub_payload(v), e, secret@)]
            (cookie matches Some(c) && sub_wf(v) && c@ == token_of(spec_sub_payload(v), e, secret@)
                && now < e) ==> (if !has_credentials(old(db)@, v) {
                r.status == 403 && r.message@ == "forbidden"@ && final(db)@ == old(db)@
            } else if has_post_id(old(db)@, post_id) {
                r.status == 200 && r.message@ == "post edited"@ && final(db)@ == (DbView {
                    posts: old(db)@.posts.update(
                        post_idx(old(db)@, post_id),
                        (PostRowView {
                            text: Some(data.text@),
                            image: Some(data.image@),
                            ..old(db)@.posts[post_idx(old(db)@, post_id)]
                        }),
                    ),
                    ..old(db)@
                })
            } else {
                r.status == 200 && r.message@ == "post edited"@ && final(db)@ == old(db)@
            }),
        forall|v: SubView, e: u64|
            #![trigger token_of(spec_sub_payload(v), e, secret@)]
            (cookie matches Some(c) && sub_wf(v) && c@ == token_of(spec_sub_payload(v), e, secret@)
                && now >= e) ==> (r.status == 403 && r.message@ == "forbidden"@ && final(db)@
                == old(db)@),
{
    let c = match cookie {
        None => {
            return Reply { status: 403, message: "forbidden" };
        },
        Some(c) => c,
    };
    let s = match validate_jwt(c, now, secret) {
        Ok(s) => s,
        Err(()) => {
            return Reply { status: 403, message: "forbidden" };
        },
    };
    if !db.user_has_credentials(&s) {
        return Reply { status: 403, message: "forbidden" };
    }
    match db.edit_post(post_id, data.text.as_str(), data.image.as_str()) {
        Ok(()) => Reply { status: 200, message: "post edited" },
        Err(_) => Reply { status: 500, message: "InternalServerError" },
    }
}

} // verus!
