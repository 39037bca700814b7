//! Account and post routes: registration, login, account deletion,
//! publishing, fetching, liking, commenting and deleting posts.

use vstd::prelude::*;
use vstd::string::StrSliceExecFns;

use crate::auth::hash::{hash_str, verifies};
use crate::auth::{
    create_jwt, spec_sub_payload, sub_wf, token_of, validate_jwt, SubView, WEEK_SECS,
};
use crate::database::user::{User, UserFormView};
use crate::auth::{format_i64, spec_int_str};
use crate::database::{
    contains_id, db_wf, email_idx, email_taken, has_credentials, has_post_id, has_user_id,
    opt_str_view, post_idx, post_matches, post_order_ok, spec_add_comment, spec_add_post,
    spec_delete_comment, spec_delete_user, spec_dislike, spec_like, spec_make_user, user_at_idx,
    user_at_taken, user_id_idx, Database, DbView, PostFilter,
};
use crate::routes::types::{AuthReply, LoginData, Reply};
use crate::{
    lower_of, lowercase, minimal_credentials_error, minimal_credentials_ok,
    validate_email, validate_minimal_user_credentials, validate_password,
};

verus! {

/// The body of a publish or comment request.
pub struct PostData {
    pub text: Option<String>,
    pub image: Option<String>,
}

/// A post as the fetch routes hand it out, joined with its owner's data
/// and the caller's like state.
pub struct ResponsePost {
    pub icon: String,
    pub image: String,
    pub username: String,
    pub user_at: String,
    pub text: String,
    pub owner_id: i32,
    pub likes_count: i32,
    pub comments_count: i32,
    pub unix_time: String,
    pub post_id: i32,
    pub has_this_user_liked: bool,
}

/// The body of a like request.
pub struct LikeInfo {
    pub post_id: i32,
}

/// The body of a comment deletion request.
pub struct DeleteCommentData {
    pub comment_id: i32,
    pub owner_post_id: i32,
}

/// A registration form with its email and handle lowered, as
/// registration normalizes it.
pub open spec fn lowered_form(v: UserFormView) -> UserFormView {
    UserFormView {
        user_name: v.user_name,
        user_at: lower_of(v.user_at),
        email: lower_of(v.email),
        password: v.password,
    }
}

/// Discards the session: with a cookie present the expired replacement
/// is to be set; without one there is nothing to remove.
pub fn logout(cookie: Option<&str>) -> (r: Reply)
    ensures
        cookie is Some ==> r.status == 200 && r.message@ == "Cookie removed"@,
        cookie is None ==> r.status == 400 && r.message@ == "No session cookie"@,
{
    match cookie {
        Some(_) => Reply { status: 200, message: "Cookie removed" },
        None => Reply { status: 400, message: "No session cookie" },
    }
}

/// Registers an account: the email and handle are lowered, the four
/// fields validated in order, the password hashed, the account stored
/// unless the handle or email is taken, and a session token issued for
/// the fresh account.
pub fn create(db: &mut Database, form_data: User, now: u64, secret: &str) -> (r: AuthReply)
    requires
        db_wf(old(db)@),
        now <= u64::MAX - WEEK_SECS,
    ensures
        db_wf(final(db)@),
        !minimal_credentials_ok(lowered_form(form_data@)) ==> (final(db)@ == old(db)@ && r.token
            is None && r.status == 400 && r.message@ == minimal_credentials_error(
            lowered_form(form_data@),
        ).message@),
        minimal_credentials_ok(lowered_form(form_data@)) && user_at_taken(
            old(db)@,
            lower_of(form_data@.user_at),
        ) ==> (final(db)@ == old(db)@ && r.token is None && r.status == 400 && r.message@
            == "Username already in use"@),
        minimal_credentials_ok(lowered_form(form_data@)) && !user_at_taken(
            old(db)@,
            lower_of(form_data@.user_at),
        ) && email_taken(old(db)@, lower_of(form_data@.email)) ==> (final(db)@ == old(db)@
            && r.token is None && r.status == 400 && r.message@ == "Email already in use"@),
        minimal_credentials_ok(lowered_form(form_data@)) && !user_at_taken(
            old(db)@,
            lower_of(form_data@.user_at),
        ) && !email_taken(old(db)@, lower_of(form_data@.email)) && old(db)@.next_user_id < i32::MAX
            ==> (r.status == 201 && r.message@ == "User created"@ && (exists|h: Seq<char>|
            #[trigger] verifies(h, form_data@.password) && final(db)@ == spec_make_user(
                old(db)@,
                (UserFormView { password: h, ..lowered_form(form_data@) }),
            )) && (r.token matches Some(t) && t@ == token_of(
            spec_sub_payload(
                (SubView {
                    id: old(db)@.next_user_id as int,
                    user_at: lower_of(form_data@.user_at),
                    email: lower_of(form_data@.email),
                }),
            ),
            (now + WEEK_SECS) as u64,
            secret@,
        ))),
        minimal_credentials_ok(lowered_form(form_data@)) && !user_at_taken(
            old(db)@,
            lower_of(form_data@.user_at),
        ) && !email_taken(old(db)@, lower_of(form_data@.email)) && old(db)@.next_user_id
            == i32::MAX ==> (r.status == 500 && r.message@ == "Internal server error"@
            && final(db)@ == old(db)@ && r.token is None),
{
    let ghost d0 = db@;
    let mut data = form_data;
    let em = lowercase(data.email.as_str());
    data.email = em;
    let ua = lowercase(data.user_at.as_str());
    data.user_at = ua;
    match validate_minimal_user_credentials(&data) {
        Err(e) => {
            return AuthReply { status: e.status, message: e.message, token: None };
        },
        Ok(()) => {},
    }
    let hashed = match hash_str(data.password.as_str()) {
        Ok(s) => s,
        Err(()) => {
            return AuthReply { status: 500, message: "Internal server error", token: None };
        },
    };
    let ghost hview = hashed@;
    data.password = hashed;
    match db.make_user(&data) {
        Err(e) => {
            return AuthReply { status: e.status, message: e.message, token: None };
        },
        Ok(()) => {},
    }
    proof {
        let d1 = db@;
        assert(d1.users[d0.users.len() as int].email == data@.email);
        assert(email_taken(d1, data@.email));
        let k = email_idx(d1, data@.email);
        assert(0 <= k < d1.users.len() && d1.users[k].email == data@.email);
        if k != d0.users.len() as int {
            assert(d1.users[k] == d0.users[k]);
            assert(email_taken(d0, data@.email));
        }
    }
    let claims = match db.make_jwt_claims(data.email.as_str()) {
        Ok(c) => c,
        Err(e) => {
            return AuthReply { status: e.status, message: e.message, token: None };
        },
    };
    match create_jwt(&claims, now, secret) {
        Ok(t) => AuthReply { status: 201, message: "User created", token: Some(t) },
        Err(()) => AuthReply { status: 500, message: "InternalServerError", token: None },
    }
}

/// Logs an account in: the email is lowered and validated, the password
/// validated, the credentials checked against the stored hash, and a
/// fresh session token issued.
pub fn login(db: &Database, form_data: &LoginData, now: u64, secret: &str) -> (r: AuthReply)
    requires
        db_wf(db@),
        now <= u64::MAX - WEEK_SECS,
    ensures
        !crate::email::email_ok(lower_of(form_data.email@)) ==> (r.status == 400 && r.message@
            == "email invalid email"@ && r.token is None),
        crate::email::email_ok(lower_of(form_data.email@)) && !crate::password_ok(
            form_data.password@,
        ) ==> (r.status == 400 && r.token is None && r.message@ == (if form_data.password@.len()
            > 32 {
            "password too long"@
        } else if form_data.password@.len() < 8 {
            "password too short"@
        } else {
            "password invalid character"@
        })),
        crate::email::email_ok(lower_of(form_data.email@)) && crate::password_ok(
            form_data.password@,
        ) && !(email_taken(db@, lower_of(form_data.email@)) && verifies(
            db@.users[email_idx(db@, lower_of(form_data.email@))].password,
            form_data.password@,
        )) ==> (r.status == 400 && r.message@ == "Invalid credentials"@ && r.token is None),
        crate::email::email_ok(lower_of(form_data.email@)) && crate::password_ok(
            form_data.password@,
        ) && email_taken(db@, lower_of(form_data.email@)) && verifies(
            db@.users[email_idx(db@, lower_of(form_data.email@))].password,
            form_data.password@,
        ) ==> (r.status == 200 && r.message@ == "Ok"@ && (r.token matches Some(t) && t@
            == token_of(
            spec_sub_payload(
                (SubView {
                    id: db@.users[email_idx(db@, lower_of(form_data.email@))].id as int,
                    user_at: db@.users[email_idx(db@, lower_of(form_data.email@))].user_at,
                    email: db@.users[email_idx(db@, lower_of(form_data.email@))].email,
                }),
            ),
            (now + WEEK_SECS) as u64,
            secret@,
        ))),
{
    let email_lower = lowercase(form_data.email.as_str());
    let res = validate_email(email_lower.as_str());
    if !res.valid {
        return AuthReply { status: 400, message: res.message, token: None };
    }
    let res = validate_password(form_data.password.as_str());
    if !res.valid {
        return AuthReply { status: 400, message: res.message, token: None };
    }
    if !db.email_exists(email_lower.as_str()) || !db.verify_password(
        email_lower.as_str(),
        form_data.password.as_str(),
    ) {
        return AuthReply { status: 400, message: "Invalid credentials", token: None };
    }
    let claims = match db.make_jwt_claims(email_lower.as_str()) {
        Ok(c) => c,
        Err(e) => {
            return AuthReply { status: e.status, message: e.message, token: None };
        },
    };
    match create_jwt(&claims, now, secret) {
        Ok(t) => AuthReply { status: 200, message: "Ok", token: Some(t) },
        Err(()) => AuthReply { status: 500, message: "InternalServerError", token: None },
    }
}

/// Deletes the caller's account: the session must be live and its claim
/// must still match the stored identity; the account is then removed
/// with all its follow relations.
pub fn delete(db: &mut Database, cookie: Option<&str>, now: u64, secret: &str) -> (r: Reply)
    requires
        db_wf(old(db)@),
    ensures
        db_wf(final(db)@),
        cookie is None ==> (r.status == 403 && r.message@ == "Unauthorized user"@ && final(db)@
            == old(db)@),
        forall|v: SubView, e: u64|
            #![trigger token_of(spec_sub_payload(v), e, secret@)]
            (cookie matches Some(t) && sub_wf(v) && t@ == token_of(spec_sub_payload(v), e, secret@)
                && now < e) ==> (if has_credentials(old(db)@, v) {
                r.status == 204 && r.message@ == "User deleted"@ && final(db)@ == spec_delete_user(
                    old(db)@,
                    v.email,
                )
            } else {
                r.status == 403 && r.message@ == "Unauthorized user"@ && final(db)@ == old(db)@
            }),
        forall|v: SubView, e: u64|
            #![trigger token_of(spec_sub_payload(v), e, secret@)]
            (cookie matches Some(t) && sub_wf(v) && t@ == token_of(spec_sub_payload(v), e, secret@)
                && now >= e) ==> (r.status == 403 && final(db)@ == old(db)@),
{
    let c = match cookie {
        Some(c) => c,
        None => {
            return Reply { status: 403, message: "Unauthorized user" };
        },
    };
    let s = match validate_jwt(c, now, secret) {
        Ok(s) => s,
        Err(()) => {
            return Reply { status: 403, message: "Unauthorized user" };
        },
    };
    if db.user_has_credentials(&s) {
        match db.delete_user(s.email.as_str()) {
            Ok(()) => Reply { status: 204, message: "User deleted" },
            Err(_) => Reply { status: 500, message: "InternalServerError" },
        }
    } else {
        Reply { status: 403, message: "Unauthorized user" }
    }
}


// ---------------------------------------------------------------------------
// Fetching posts
// ---------------------------------------------------------------------------

/// The text of an optional field, or the empty string.
pub open spec fn opt_or_empty(o: Option<Seq<char>>) -> Seq<char> {
    match o {
        Some(s) => s,
        None => Seq::empty(),
    }
}

/// A handed-out post entry mirrors the stored row at `pidx`, its owner's
/// account, and the viewer's like state.
pub open spec fn response_post_ok(d: DbView, viewer: Option<i32>, pidx: int, rp: ResponsePost) -> bool {
    let p = d.posts[pidx];
    &&& rp.owner_id == p.owner_id
    &&& rp.post_id == p.post_id
    &&& rp.unix_time@ == spec_int_str(p.unix_time as int)
    &&& rp.likes_count == p.likes_count
    &&& rp.comments_count == p.comments_count
    &&& rp.text@ == opt_or_empty(p.text)
    &&& rp.image@ == opt_or_empty(p.image)
    &&& has_user_id(d, p.owner_id)
    &&& rp.user_at@ == d.users[user_id_idx(d, p.owner_id)].user_at
    &&& rp.username@ == d.users[user_id_idx(d, p.owner_id)].user_name
    &&& rp.icon@ == opt_or_empty(d.users[user_id_idx(d, p.owner_id)].icon)
    &&& rp.has_this_user_liked == (match viewer {
        Some(u) => p.likes.contains(u),
        None => false,
    })
}

/// A fetch result: some newest-first arrangement of the selected rows,
/// each joined with its owner and the viewer's like state.
pub open spec fn response_listing_ok(
    d: DbView,
    viewer: Option<i32>,
    f: PostFilter,
    v: Seq<ResponsePost>,
) -> bool {
    exists|ord: Seq<int>|
        post_order_ok(d, f, ord) && v.len() == ord.len() && (forall|k: int|
            0 <= k < ord.len() ==> response_post_ok(d, viewer, #[trigger] ord[k], v[k]))
}

/// Every row the filter selects still has its owner stored.
pub open spec fn owners_present(d: DbView, f: PostFilter) -> bool {
    forall|i: int|
        0 <= i < d.posts.len() && post_matches(f, #[trigger] d.posts[i]) ==> has_user_id(
            d,
            d.posts[i].owner_id,
        )
}

/// Builds one handed-out entry for the row at `pi`.
pub(crate) fn build_response_post(db: &Database, pi: usize, viewer: Option<i32>) -> (r: Result<
    ResponsePost,
    (),
>)
    requires
        db_wf(db@),
        pi < db@.posts.len(),
    ensures
        r matches Ok(rp) ==> response_post_ok(db@, viewer, pi as int, rp),
        has_user_id(db@, db@.posts[pi as int].owner_id) ==> r is Ok,
{
    let row = &db.posts[pi];
    let oi = match db.idx_by_id(row.owner_id) {
        Some(i) => i,
        None => {
            return Err(());
        },
    };
    proof {
        crate::database::lemma_user_id_unique(db@, oi as int, user_id_idx(db@, row.owner_id));
    }
    let owner = &db.users[oi];
    let liked = match viewer {
        Some(u) => contains_id(&row.likes, u),
        None => false,
    };
    Ok(
        ResponsePost {
            icon: match &owner.icon {
                Some(s) => s.clone(),
                None => String::new(),
            },
            image: match &row.image {
                Some(s) => s.clone(),
                None => String::new(),
            },
            username: owner.user_name.clone(),
            user_at: owner.user_at.clone(),
            text: match &row.text {
                Some(s) => s.clone(),
                None => String::new(),
            },
            owner_id: row.owner_id,
            likes_count: row.likes_count,
            comments_count: row.comments_count,
            unix_time: format_i64(row.unix_time),
            post_id: row.post_id,
            has_this_user_liked: liked,
        },
    )
}

/// The selected rows, newest first, joined for the viewer. Fails when a
/// selected row's owner is gone.
pub(crate) fn collect_response_posts(db: &Database, filter: PostFilter, viewer: Option<i32>) -> (r: Result<
    Vec<ResponsePost>,
    (),
>)
    requires
        db_wf(db@),
    ensures
        r matches Ok(v) ==> response_listing_ok(db@, viewer, filter, v@),
        owners_present(db@, filter) ==> r is Ok,
{
    let idxs = db.posts_sorted_desc(filter);
    let mut v: Vec<ResponsePost> = Vec::new();
    let m = idxs.len();
    for k in 0..m
        invariant
            db_wf(db@),
            m == idxs@.len(),
            post_order_ok(db@, filter, crate::database::idxs_view(idxs@)),
            v@.len() == k,
            forall|j: int|
                0 <= j < k ==> response_post_ok(db@, viewer, #[trigger] idxs@[j] as int, v@[j]),
    {
        proof {
            assert(crate::database::idxs_view(idxs@)[k as int] == idxs@[k as int] as int);
        }
        match build_response_post(db, idxs[k], viewer) {
            Ok(rp) => {
                v.push(rp);
            },
            Err(()) => {
                proof {
                    assert(post_matches(filter, db@.posts[idxs@[k as int] as int]));
                }
                return Err(());
            },
        }
    }
    proof {
        let ord = crate::database::idxs_view(idxs@);
        assert(post_order_ok(db@, filter, ord) && v@.len() == ord.len() && (forall|j: int|
            0 <= j < ord.len() ==> response_post_ok(db@, viewer, #[trigger] ord[j], v@[j])));
    }
    Ok(v)
}

/// Reads the viewer's id out of the session cookie, if it validates; an
/// expired or absent session reads as no viewer.
pub(crate) fn viewer_of_cookie(cookie: Option<&str>, now: u64, secret: &str) -> (r: Option<i32>)
    ensures
        cookie is None ==> r is None,
        forall|v: SubView, e: u64|
            #![trigger token_of(spec_sub_payload(v), e, secret@)]
            (cookie matches Some(t) && sub_wf(v) && t@ == token_of(spec_sub_payload(v), e, secret@)
                && now < e) ==> r == Some(v.id as i32),
        forall|v: SubView, e: u64|
            #![trigger token_of(spec_sub_payload(v), e, secret@)]
            (cookie matches Some(t) && sub_wf(v) && t@ == token_of(spec_sub_payload(v), e, secret@)
                && now >= e) ==> r is None,
{
    match cookie {
        Some(t) => match validate_jwt(t, now, secret) {
            Ok(s) => Some(s.id),
            Err(()) => None,
        },
        None => None,
    }
}

/// Lists all top-level posts, newest first, joined with their owners and
/// the caller's like state; an invalid or absent session just reads as
/// an anonymous viewer.
pub fn fetch_posts(db: &Database, cookie: Option<&str>, now: u64, secret: &str) -> (r:
    crate::routes::types::DataResponse<Result<Vec<ResponsePost>, &'static str>>)
    requires
        db_wf(db@),
    ensures
        r.status == 200 || r.status == 500,
        r.status == 500 ==> (r.data matches Err(m) && m@ == "InternalServerError"@),
        owners_present(db@, PostFilter::TopLevel) ==> r.status == 200,
        cookie is None && r.status == 200 ==> (r.data matches Ok(v) && response_listing_ok(
            db@,
            None,
            PostFilter::TopLevel,
            v@,
        )),
        forall|v: SubView, e: u64|
            #![trigger token_of(spec_sub_payload(v), e, secret@)]
            (cookie matches Some(t) && sub_wf(v) && t@ == token_of(spec_sub_payload(v), e, secret@)
                && now < e && r.status == 200) ==> (r.data matches Ok(posts)
                && response_listing_ok(db@, Some(v.id as i32), PostFilter::TopLevel, posts@)),
        forall|v: SubView, e: u64|
            #![trigger token_of(spec_sub_payload(v), e, secret@)]
            (cookie matches Some(t) && sub_wf(v) && t@ == token_of(spec_sub_payload(v), e, secret@)
                && now >= e && r.status == 200) ==> (r.data matches Ok(posts)
                && response_listing_ok(db@, None, PostFilter::TopLevel, posts@)),
{
    let viewer = viewer_of_cookie(cookie, now, secret);
    match collect_response_posts(db, PostFilter::TopLevel, viewer) {
        Ok(v) => crate::routes::types::DataResponse { status: 200, data: Ok(v) },
        Err(()) => crate::routes::types::DataResponse {
            status: 500,
            data: Err("InternalServerError"),
        },
    }
}

/// Fetches one post by id, joined with its owner and the caller's like
/// state; a missing post or owner reads as a storage failure.
pub fn fetch_post(db: &Database, post_id: i32, cookie: Option<&str>, now: u64, secret: &str) -> (r:
    crate::routes::types::DataResponse<Result<ResponsePost, &'static str>>)
    requires
        db_wf(db@),
    ensures
        r.status == 200 || r.status == 500,
        r.status == 500 ==> (r.data matches Err(m) && m@ == "InternalServerError"@),
        !has_post_id(db@, post_id) ==> r.status == 500,
        has_post_id(db@, post_id) && has_user_id(
            db@,
            db@.posts[post_idx(db@, post_id)].owner_id,
        ) ==> r.status == 200,
        cookie is None && r.status == 200 ==> (r.data matches Ok(rp) && response_post_ok(
            db@,
            None,
            post_idx(db@, post_id),
            rp,
        )),
        forall|v: SubView, e: u64|
            #![trigger token_of(spec_sub_payload(v), e, secret@)]
            (cookie matches Some(t) && sub_wf(v) && t@ == token_of(spec_sub_payload(v), e, secret@)
                && now < e && r.status == 200) ==> (r.data matches Ok(rp) && response_post_ok(
                db@,
                Some(v.id as i32),
                post_idx(db@, post_id),
                rp,
            )),
        forall|v: SubView, e: u64|
            #![trigger token_of(spec_sub_payload(v), e, secret@)]
            (cookie matches Some(t) && sub_wf(v) && t@ == token_of(spec_sub_payload(v), e, secret@)
                && now >= e && r.status == 200) ==> (r.data matches Ok(rp) && response_post_ok(
                db@,
                None,
                post_idx(db@, post_id),
                rp,
            )),
{
    let pi = match db.idx_by_post_id(post_id) {
        Some(i) => i,
        None => {
            return crate::routes::types::DataResponse {
                status: 500,
                data: Err("InternalServerError"),
            };
        },
    };
    proof {
        crate::database::lemma_post_id_unique(db@, pi as int, post_idx(db@, post_id));
    }
    let viewer = viewer_of_cookie(cookie, now, secret);
    match build_response_post(db, pi, viewer) {
        Ok(rp) => crate::routes::types::DataResponse { status: 200, data: Ok(rp) },
        Err(()) => crate::routes::types::DataResponse {
            status: 500,
            data: Err("InternalServerError"),
        },
    }
}

/// Lists one account's top-level posts by handle, newest first; an
/// unknown handle reads as a storage failure.
pub fn fetch_user_posts(db: &Database, user_at: &str, cookie: Option<&str>, now: u64, secret: &str) -> (r:
    crate::routes::types::DataResponse<Result<Vec<ResponsePost>, &'static str>>)
    requires
        db_wf(db@),
    ensures
        r.status == 200 || r.status == 500,
        r.status == 500 ==> (r.data matches Err(m) && m@ == "InternalServerError"@),
        !user_at_taken(db@, user_at@) ==> r.status == 500,
        user_at_taken(db@, user_at@) && owners_present(
            db@,
            PostFilter::ByOwner(db@.users[user_at_idx(db@, user_at@)].id),
        ) ==> r.status == 200,
        cookie is None && r.status == 200 ==> (r.data matches Ok(v) && user_at_taken(db@, user_at@)
            && response_listing_ok(
            db@,
            None,
            PostFilter::ByOwner(db@.users[user_at_idx(db@, user_at@)].id),
            v@,
        )),
        forall|v: SubView, e: u64|
            #![trigger token_of(spec_sub_payload(v), e, secret@)]
            (cookie matches Some(t) && sub_wf(v) && t@ == token_of(spec_sub_payload(v), e, secret@)
                && now < e && r.status == 200) ==> (r.data matches Ok(posts) && user_at_taken(
                db@,
                user_at@,
            ) && response_listing_ok(
                db@,
                Some(v.id as i32),
                PostFilter::ByOwner(db@.users[user_at_idx(db@, user_at@)].id),
                posts@,
            )),
        forall|v: SubView, e: u64|
            #![trigger token_of(spec_sub_payload(v), e, secret@)]
            (cookie matches Some(t) && sub_wf(v) && t@ == token_of(spec_sub_payload(v), e, secret@)
                && now >= e && r.status == 200) ==> (r.data matches Ok(posts) && user_at_taken(
                db@,
                user_at@,
            ) && response_listing_ok(
                db@,
                None,
                PostFilter::ByOwner(db@.users[user_at_idx(db@, user_at@)].id),
                posts@,
            )),
{
    let ui = match db.idx_by_user_at(user_at) {
        Some(i) => i,
        None => {
            return crate::routes::types::DataResponse {
                status: 500,
                data: Err("InternalServerError"),
            };
        },
    };
    proof {
        crate::database::lemma_user_at_unique(db@, ui as int, user_at_idx(db@, user_at@));
    }
    let owner_id = db.users[ui].id;
    let viewer = viewer_of_cookie(cookie, now, secret);
    match collect_response_posts(db, PostFilter::ByOwner(owner_id), viewer) {
        Ok(v) => crate::routes::types::DataResponse { status: 200, data: Ok(v) },
        Err(()) => crate::routes::types::DataResponse {
            status: 500,
            data: Err("InternalServerError"),
        },
    }
}



// ---------------------------------------------------------------------------
// Publishing, liking, commenting, deleting
// ---------------------------------------------------------------------------

/// Publishes a post: an empty body or an overlong text is refused before
/// the session is even consulted; a live session then stores the post
/// under the caller's id with the given timestamp.
pub fn publish_post(
    db: &mut Database,
    post_data: &PostData,
    cookie: Option<&str>,
    now: u64,
    timestamp_ms: i64,
    secret: &str,
) -> (r: Reply)
    requires
        db_wf(old(db)@),
    ensures
        db_wf(final(db)@),
        post_data.text is None && post_data.image is None ==> (r.status == 400 && r.message@
            == "Bad request, post was empty"@ && final(db)@ == old(db)@),
        (post_data.text matches Some(t) && t@.len() > 200) ==> (r.status == 400 && r.message@
            == "Text too long"@ && final(db)@ == old(db)@),
        !(post_data.text is None && post_data.image is None) && !(post_data.text matches Some(t)
            && t@.len() > 200) && cookie is None ==> (r.status == 403 && r.message@ == "Forbidden"@
            && final(db)@ == old(db)@),
        forall|v: SubView, e: u64|
            #![trigger token_of(spec_sub_payload(v), e, secret@)]
            (!(post_data.text is None && post_data.image is None) && !(post_data.text matches Some(
                t,
            ) && t@.len() > 200) && (cookie matches Some(c) && sub_wf(v) && c@ == token_of(
                spec_sub_payload(v),
                e,
                secret@,
            ) && now < e)) ==> (if has_user_id(old(db)@, v.id as i32) && old(db)@.next_post_id
                < i32::MAX {
                r.status == 200 && r.message@ == "Ok"@ && final(db)@ == spec_add_post(
                    old(db)@,
                    v.id as i32,
                    opt_or_empty(opt_str_view(post_data.text)),
                    opt_str_view(post_data.image),
                    timestamp_ms,
                )
            } else {
                r.status == 500 && final(db)@ == old(db)@
            }),
        forall|v: SubView, e: u64|
            #![trigger token_of(spec_sub_payload(v), e, secret@)]
            (!(post_data.text is None && post_data.image is None) && !(post_data.text matches Some(
                t,
            ) && t@.len() > 200) && (cookie matches Some(c) && sub_wf(v) && c@ == token_of(
                spec_sub_payload(v),
                e,
                secret@,
            ) && now >= e)) ==> (r.status == 403 && final(db)@ == old(db)@),
{
    if post_data.text.is_none() && post_data.image.is_none() {
        return Reply { status: 400, message: "Bad request, post was empty" };
    }
    match &post_data.text {
        Some(t) => {
            if t.as_str().unicode_len() > 200 {
                return Reply { status: 400, message: "Text too long" };
            }
        },
        None => {},
    }
    let c = match cookie {
        Some(c) => c,
        None => {
            return Reply { status: 403, message: "Forbidden" };
        },
    };
    let s = match validate_jwt(c, now, secret) {
        Ok(s) => s,
        Err(()) => {
            return Reply { status: 403, message: "Forbidden" };
        },
    };
    let text = match &post_data.text {
        Some(t) => t.clone(),
        None => String::new(),
    };
    match db.post(s.id, text.as_str(), &post_data.image, timestamp_ms) {
        Ok(()) => Reply { status: 200, message: "Ok" },
        Err(_) => Reply { status: 500, message: "InternalServerError" },
    }
}

/// Adds a comment under a post: the same body checks as publishing, then
/// a live session stores the comment and counts it on the parent.
pub fn comment(
    db: &mut Database,
    post_data: &PostData,
    owner_post_id: i32,
    cookie: Option<&str>,
    now: u64,
    timestamp_ms: i64,
    secret: &str,
) -> (r: Reply)
    requires
        db_wf(old(db)@),
    ensures
        db_wf(final(db)@),
        post_data.text is None && post_data.image is None ==> (r.status == 400 && r.message@
            == "Bad request, post was empty"@ && final(db)@ == old(db)@),
        (post_data.text matches Some(t) && t@.len() > 200) ==> (r.status == 400 && r.message@
            == "Text too long"@ && final(db)@ == old(db)@),
        !(post_data.text is None && post_data.image is None) && !(post_data.text matches Some(t)
            && t@.len() > 200) && cookie is None ==> (r.status == 403 && r.message@ == "Forbidden"@
            && final(db)@ == old(db)@),
        forall|v: SubView, e: u64|
            #![trigger token_of(spec_sub_payload(v), e, secret@)]
            (!(post_data.text is None && post_data.image is None) && !(post_data.text matches Some(
                t,
            ) && t@.len() > 200) && (cookie matches Some(c) && sub_wf(v) && c@ == token_of(
                spec_sub_payload(v),
                e,
                secret@,
            ) && now < e)) ==> (if has_user_id(old(db)@, v.id as i32) && has_post_id(
                old(db)@,
                owner_post_id,
            ) && old(db)@.next_post_id < i32::MAX && old(db)@.posts[
                post_idx(old(db)@, owner_post_id)
            ].comments_count < i32::MAX {
                r.status == 200 && r.message@ == "Ok"@ && final(db)@ == spec_add_comment(
                    old(db)@,
                    v.id as i32,
                    opt_or_empty(opt_str_view(post_data.text)),
                    opt_str_view(post_data.image),
                    timestamp_ms,
                    owner_post_id,
                )
            } else {
                r.status == 500 && final(db)@ == old(db)@
            }),
        forall|v: SubView, e: u64|
            #![trigger token_of(spec_sub_payload(v), e, secret@)]
            (!(post_data.text is None && post_data.image is None) && !(post_data.text matches Some(
                t,
            ) && t@.len() > 200) && (cookie matches Some(c) && sub_wf(v) && c@ == token_of(
                spec_sub_payload(v),
                e,
                secret@,
            ) && now >= e)) ==> (r.status == 403 && final(db)@ == old(db)@),
{
    if post_data.text.is_none() && post_data.image.is_none() {
        return Reply { status: 400, message: "Bad request, post was empty" };
    }
    match &post_data.text {
        Some(t) => {
            if t.as_str().unicode_len() > 200 {
                return Reply { status: 400, message: "Text too long" };
            }
        },
        None => {},
    }
    let c = match cookie {
        Some(c) => c,
        None => {
            return Reply { status: 403, message: "Forbidden" };
        },
    };
    let s = match validate_jwt(c, now, secret) {
        Ok(s) => s,
        Err(()) => {
            return Reply { status: 403, message: "Forbidden" };
        },
    };
    let text = match &post_data.text {
        Some(t) => t.clone(),
        None => String::new(),
    };
    match db.comment(s.id, text.as_str(), &post_data.image, timestamp_ms, owner_post_id) {
        Ok(()) => Reply { status: 200, message: "Ok" },
        Err(_) => Reply { status: 500, message: "InternalServerError" },
    }
}

/// Toggles the caller's like on a post: already liked means withdraw,
/// otherwise record; the caller must present a live session.
pub fn like(db: &mut Database, cookie: Option<&str>, like_info: &LikeInfo, now: u64, secret: &str) -> (r: u16)
    requires
        db_wf(old(db)@),
    ensures
        db_wf(final(db)@),
        cookie is None ==> (r == 400 && final(db)@ == old(db)@),
        forall|v: SubView, e: u64|
            #![trigger token_of(spec_sub_payload(v), e, secret@)]
            (cookie matches Some(c) && sub_wf(v) && c@ == token_of(spec_sub_payload(v), e, secret@)
                && now < e) ==> (if !has_post_id(old(db)@, like_info.post_id) {
                r == 500 && final(db)@ == old(db)@
            } else if old(db)@.posts[post_idx(old(db)@, like_info.post_id)].likes.contains(
                v.id as i32,
            ) {
                if has_user_id(old(db)@, v.id as i32) {
                    r == 200 && final(db)@ == spec_dislike(old(db)@, v.id as i32, like_info.post_id)
                } else {
                    r == 500 && final(db)@ == old(db)@
                }
            } else {
                if has_user_id(old(db)@, v.id as i32) && old(db)@.posts[
                    post_idx(old(db)@, like_info.post_id)
                ].likes_count < i32::MAX {
                    r == 200 && final(db)@ == spec_like(old(db)@, v.id as i32, like_info.post_id)
                } else {
                    r == 500 && final(db)@ == old(db)@
                }
            }),
        forall|v: SubView, e: u64|
            #![trigger token_of(spec_sub_payload(v), e, secret@)]
            (cookie matches Some(c) && sub_wf(v) && c@ == token_of(spec_sub_payload(v), e, secret@)
                && now >= e) ==> (r == 400 && final(db)@ == old(db)@),
{
    let c = match cookie {
        Some(c) => c,
        None => {
            return 400;
        },
    };
    let s = match validate_jwt(c, now, secret) {
        Ok(s) => s,
        Err(()) => {
            return 400;
        },
    };
    let has_user_already_liked = match db.likes_list_contains(like_info.post_id, s.id) {
        Ok(b) => b,
        Err(_) => {
            return 500;
        },
    };
    if has_user_already_liked {
        match db.dislike(s.id, like_info.post_id) {
            Ok(()) => 200,
            Err(_) => 500,
        }
    } else {
        match db.like(s.id, like_info.post_id) {
            Ok(()) => 200,
            Err(_) => 500,
        }
    }
}

/// Toggles the caller's like on a comment, as `like` does for posts; the
/// row must be a comment.
pub fn like_comment(db: &mut Database, cookie: Option<&str>, like_info: &LikeInfo, now: u64, secret: &str) -> (r: u16)
    requires
        db_wf(old(db)@),
    ensures
        db_wf(final(db)@),
        cookie is None ==> (r == 400 && final(db)@ == old(db)@),
        forall|v: SubView, e: u64|
            #![trigger token_of(spec_sub_payload(v), e, secret@)]
            (cookie matches Some(c) && sub_wf(v) && c@ == token_of(spec_sub_payload(v), e, secret@)
                && now < e) ==> (if !has_post_id(old(db)@, like_info.post_id) || old(db)@.posts[
                post_idx(old(db)@, like_info.post_id)
            ].parent_id is None {
                r == 500 && final(db)@ == old(db)@
            } else if old(db)@.posts[post_idx(old(db)@, like_info.post_id)].likes.contains(
                v.id as i32,
            ) {
                if has_user_id(old(db)@, v.id as i32) {
                    r == 200 && final(db)@ == spec_dislike(old(db)@, v.id as i32, like_info.post_id)
                } else {
                    r == 500 && final(db)@ == old(db)@
                }
            } else {
                if has_user_id(old(db)@, v.id as i32) && old(db)@.posts[
                    post_idx(old(db)@, like_info.post_id)
                ].likes_count < i32::MAX {
                    r == 200 && final(db)@ == spec_like(old(db)@, v.id as i32, like_info.post_id)
                } else {
                    r == 500 && final(db)@ == old(db)@
                }
            }),
        forall|v: SubView, e: u64|
            #![trigger token_of(spec_sub_payload(v), e, secret@)]
            (cookie matches Some(c) && sub_wf(v) && c@ == token_of(spec_sub_payload(v), e, secret@)
                && now >= e) ==> (r == 400 && final(db)@ == old(db)@),
{
    let c = match cookie {
        Some(c) => c,
        None => {
            return 400;
        },
    };
    let s = match validate_jwt(c, now, secret) {
        Ok(s) => s,
        Err(()) => {
            return 400;
        },
    };
    let has_user_already_liked = match db.comment_likes_list_contains(like_info.post_id, s.id) {
        Ok(b) => b,
        Err(_) => {
            return 500;
        },
    };
    if has_user_already_liked {
        match db.dislike_comment(s.id, like_info.post_id) {
            Ok(()) => 200,
            Err(_) => 500,
        }
    } else {
        match db.like_comment(s.id, like_info.post_id) {
            Ok(()) => 200,
            Err(_) => 500,
        }
    }
}

/// Deletes a post: the session must be live and match the stored
/// identity; the post row is then removed.
pub fn delete_post(db: &mut Database, post_id: i32, cookie: Option<&str>, now: u64, secret: &str) -> (r: Reply)
    requires
        db_wf(old(db)@),
    ensures
        db_wf(final(db)@),
        cookie is None ==> (r.status == 400 && r.message@ == "BadRequest"@ && final(db)@ == old(
            db,
        )@),
        forall|v: SubView, e: u64|
            #![trigger token_of(spec_sub_payload(v), e, secret@)]
            (cookie matches Some(c) && sub_wf(v) && c@ == token_of(spec_sub_payload(v), e, secret@)
                && now < e) ==> (if has_credentials(old(db)@, v) {
                if has_post_id(old(db)@, post_id) {
                    r.status == 204 && r.message@ == "Post deleted"@ && final(db)@ == (DbView {
                        posts: old(db)@.posts.remove(post_idx(old(db)@, post_id)),
                        ..old(db)@
                    })
                } else {
                    r.status == 500 && final(db)@ == old(db)@
                }
            } else {
                r.status == 400 && r.message@ == "BadRequest"@ && final(db)@ == old(db)@
            }),
        forall|v: SubView, e: u64|
            #![trigger token_of(spec_sub_payload(v), e, secret@)]
            (cookie matches Some(c) && sub_wf(v) && c@ == token_of(spec_sub_payload(v), e, secret@)
                && now >= e) ==> (r.status == 400 && final(db)@ == old(db)@),
{
    let c = match cookie {
        Some(c) => c,
        None => {
            return Reply { status: 400, message: "BadRequest" };
        },
    };
    let s = match validate_jwt(c, now, secret) {
        Ok(s) => s,
        Err(()) => {
            return Reply { status: 400, message: "BadRequest" };
        },
    };
    if db.user_has_credentials(&s) {
        match db.delete_post(post_id) {
            Ok(()) => Reply { status: 204, message: "Post deleted" },
            Err(_) => Reply { status: 500, message: "InternalServerError" },
        }
    } else {
        Reply { status: 400, message: "BadRequest" }
    }
}

/// Deletes a comment under its post: the session must be live and match
/// the stored identity; the comment is removed and counted off its
/// parent.
pub fn delete_comment(
    db: &mut Database,
    comment_delete_data: &DeleteCommentData,
    cookie: Option<&str>,
    now: u64,
    secret: &str,
) -> (r: Reply)
    requires
        db_wf(old(db)@),
    ensures
        db_wf(final(db)@),
        cookie is None ==> (r.status == 400 && r.message@ == "BadRequest"@ && final(db)@ == old(
            db,
        )@),
        forall|v: SubView, e: u64|
            #![trigger token_of(spec_sub_payload(v), e, secret@)]
            (cookie matches Some(c) && sub_wf(v) && c@ == token_of(spec_sub_payload(v), e, secret@)
                && now < e) ==> (if has_credentials(old(db)@, v) {
                if has_post_id(old(db)@, comment_delete_data.comment_id) && old(db)@.posts[
                    post_idx(old(db)@, comment_delete_data.comment_id)
                ].parent_id == Some(comment_delete_data.owner_post_id) {
                    r.status == 204 && r.message@ == "Comment deleted"@ && final(db)@
                        == spec_delete_comment(
                        old(db)@,
                        comment_delete_data.comment_id,
                        comment_delete_data.owner_post_id,
                    )
                } else {
                    r.status == 500 && final(db)@ == old(db)@
                }
            } else {
                r.status == 400 && r.message@ == "BadRequest"@ && final(db)@ == old(db)@
            }),
        forall|v: SubView, e: u64|
            #![trigger token_of(spec_sub_payload(v), e, secret@)]
            (cookie matches Some(c) && sub_wf(v) && c@ == token_of(spec_sub_payload(v), e, secret@)
                && now >= e) ==> (r.status == 400 && final(db)@ == old(db)@),
{
    let c = match cookie {
        Some(c) => c,
        None => {
            return Reply { status: 400, message: "BadRequest" };
        },
    };
    let s = match validate_jwt(c, now, secret) {
        Ok(s) => s,
        Err(()) => {
            return Reply { status: 400, message: "BadRequest" };
        },
    };
    if db.user_has_credentials(&s) {
        match db.delete_comment(comment_delete_data.comment_id, comment_delete_data.owner_post_id) {
            Ok(()) => Reply { status: 204, message: "Comment deleted" },
            Err(_) => Reply { status: 500, message: "InternalServerError" },
        }
    } else {
        Reply { status: 400, message: "BadRequest" }
    }
}


} // verus!
