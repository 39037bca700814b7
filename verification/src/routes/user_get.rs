//! Read-only account routes: profiles, the caller's own data, follower
//! listings, account search and comment listings.

use vstd::prelude::*;

use crate::auth::{spec_sub_payload, sub_wf, token_of, validate_jwt, SubView};
use crate::database::{
    db_wf, email_idx, email_taken, has_user_id, opt_str_view, query_listing_ok, spec_is_following,
    user_at_idx, user_at_taken, user_id_idx, Database, DbView, FollowData, PostFilter,
};
use crate::routes::types::{DataResponse, ProfileData, UpdatedClientUser, UpdatedFollowData};
use crate::routes::user::{
    collect_response_posts, opt_or_empty, owners_present, response_listing_ok, viewer_of_cookie,
    ResponsePost,
};
use crate::{str_blank, user_at_ok, validate_user_at};

verus! {

/// An account search hit, with the icon as text.
pub struct UserWithIcon {
    pub username: String,
    pub user_at: String,
    pub icon: String,
}

/// A profile response mirrors the stored account at `tidx`, with the
/// caller's relation to it.
pub open spec fn profile_ok(d: DbView, tidx: int, is_f: bool, is_h: bool, pd: ProfileData) -> bool {
    let u = d.users[tidx];
    &&& pd.username@ == u.user_name
    &&& pd.user_at@ == u.user_at
    &&& pd.followers_count == u.followers_count
    &&& pd.following_count == u.following_count
    &&& pd.is_following == is_f
    &&& pd.is_himself == is_h
    &&& pd.bio@ == opt_or_empty(u.bio)
    &&& pd.icon@ == opt_or_empty(u.icon)
}

/// A follower-listing entry mirrors the stored account with this id,
/// with a missing icon read as empty text.
pub open spec fn updated_follow_ok(d: DbView, id: i32, u: UpdatedFollowData) -> bool {
    &&& has_user_id(d, id)
    &&& u.user_at@ == d.users[user_id_idx(d, id)].user_at
    &&& u.username@ == d.users[user_id_idx(d, id)].user_name
    &&& u.icon@ == opt_or_empty(d.users[user_id_idx(d, id)].icon)
}

/// Shows a profile by handle: an invalid or unknown handle is not found;
/// a visitor without a cookie sees the profile with no relation; a
/// caller with a live session whose handle still exists sees whether the
/// profile is their own and whether they follow it.
pub fn get_profile_data(db: &Database, user_at: &str, cookie: Option<&str>, now: u64, secret: &str) -> (r: DataResponse<Result<ProfileData, &'static str>>)
    requires
        db_wf(db@),
    ensures
        !user_at_ok(user_at@) ==> (r.status == 404 && (r.data matches Err(m) && m@ == "Not found"@)),
        user_at_ok(user_at@) && !user_at_taken(db@, user_at@) ==> (r.status == 404 && (r.data
            matches Err(m) && m@ == "Not found"@)),
        user_at_ok(user_at@) && user_at_taken(db@, user_at@) && cookie is None ==> (r.status == 200
            && (r.data matches Ok(pd) && profile_ok(db@, user_at_idx(db@, user_at@), false, false, pd))),
        forall|v: SubView, e: u64|
            #![trigger token_of(spec_sub_payload(v), e, secret@)]
            (user_at_ok(user_at@) && user_at_taken(db@, user_at@) && (cookie matches Some(c)
                && sub_wf(v) && c@ == token_of(spec_sub_payload(v), e, secret@) && now < e)) ==> (
            if user_at_taken(db@, v.user_at) {
                r.status == 200 && (r.data matches Ok(pd) && profile_ok(
                    db@,
                    user_at_idx(db@, user_at@),
                    spec_is_following(db@, v.id as i32, db@.users[user_at_idx(db@, user_at@)].id),
                    v.id == db@.users[user_at_idx(db@, user_at@)].id,
                    pd,
                ))
            } else {
                r.status == 403 && (r.data matches Err(m) && m@ == "Unauthorized user"@)
            }),
        forall|v: SubView, e: u64|
            #![trigger token_of(spec_sub_payload(v), e, secret@)]
            (user_at_ok(user_at@) && user_at_taken(db@, user_at@) && (cookie matches Some(c)
                && sub_wf(v) && c@ == token_of(spec_sub_payload(v), e, secret@) && now >= e)) ==> (
            r.status == 403 && (r.data matches Err(m) && m@ == "Unauthorized user"@)),
{
    let vf = validate_user_at(user_at);
    if !vf.valid {
        return DataResponse { status: 404, data: Err("Not found") };
    }
    let ti = match db.idx_by_user_at(user_at) {
        Some(i) => i,
        None => {
            return DataResponse { status: 404, data: Err("Not found") };
        },
    };
    proof {
        crate::database::lemma_user_at_unique(db@, ti as int, user_at_idx(db@, user_at@));
        assert(crate::database::user_row_wf(db@.users[ti as int], db@.next_user_id));
    }
    let target_id = db.users[ti].id;
    let mut is_following = false;
    let mut is_himself = false;
    match cookie {
        Some(c) => {
            let s = match validate_jwt(c, now, secret) {
                Ok(s) => s,
                Err(()) => {
                    return DataResponse { status: 403, data: Err("Unauthorized user") };
                },
            };
            if s.id == target_id {
                is_himself = true;
            }
            if !db.user_exists(s.user_at.as_str()) {
                return DataResponse { status: 403, data: Err("Unauthorized user") };
            }
            match db.is_following(target_id, s.id) {
                Ok(b) => {
                    is_following = b;
                },
                Err(_) => {
                    proof {
                        // the relation cannot point at a missing account
                        if spec_is_following(db@, s.id, target_id) {
                            let u = db@.users[user_id_idx(db@, target_id)];
                            let k = choose|k: int|
                                0 <= k < u.followers.len() && u.followers[k] == s.id;
                            assert(has_user_id(db@, u.followers[k]));
                        }
                    }
                },
            }
        },
        None => {},
    }
    let row = &db.users[ti];
    DataResponse {
        status: 200,
        data: Ok(
            ProfileData {
                username: row.user_name.clone(),
                user_at: row.user_at.clone(),
                followers_count: row.followers_count,
                following_count: row.following_count,
                is_following,
                is_himself,
                bio: match &row.bio {
                    Some(b) => b.clone(),
                    None => String::new(),
                },
                icon: match &row.icon {
                    Some(s) => s.clone(),
                    None => String::new(),
                },
            },
        ),
    }
}

/// Returns the caller's own account data: a live session whose email
/// still names an account reads that account; anything else is refused.
pub fn get_data(db: &Database, cookie: Option<&str>, now: u64, secret: &str) -> (r: DataResponse<
    Result<UpdatedClientUser, &'static str>,
>)
    requires
        db_wf(db@),
    ensures
        cookie is None ==> (r.status == 403 && (r.data matches Err(m) && m@ == "Unauthorized user"@)),
        forall|v: SubView, e: u64|
            #![trigger token_of(spec_sub_payload(v), e, secret@)]
            (cookie matches Some(c) && sub_wf(v) && c@ == token_of(spec_sub_payload(v), e, secret@)
                && now < e) ==> (if email_taken(db@, v.email) {
                r.status == 200 && (r.data matches Ok(u) && {
                    let w = db@.users[email_idx(db@, v.email)];
                    u.username@ == w.user_name && u.userat@ == w.user_at && u.followingcount
                        == w.following_count && u.followerscount == w.followers_count
                        && opt_str_view(u.bio) == w.bio && u.icon@ == opt_or_empty(w.icon)
                })
            } else {
                r.status == 403 && (r.data matches Err(m) && m@ == "Unauthorized user"@)
            }),
        forall|v: SubView, e: u64|
            #![trigger token_of(spec_sub_payload(v), e, secret@)]
            (cookie matches Some(c) && sub_wf(v) && c@ == token_of(spec_sub_payload(v), e, secret@)
                && now >= e) ==> (r.status == 403 && (r.data matches Err(m) && m@
                == "Unauthorized user"@)),
{
    let c = match cookie {
        Some(c) => c,
        None => {
            return DataResponse { status: 403, data: Err("Unauthorized user") };
        },
    };
    let s = match validate_jwt(c, now, secret) {
        Ok(s) => s,
        Err(()) => {
            return DataResponse { status: 403, data: Err("Unauthorized user") };
        },
    };
    let ui = match db.idx_by_email(s.email.as_str()) {
        Some(i) => i,
        None => {
            return DataResponse { status: 403, data: Err("Unauthorized user") };
        },
    };
    proof {
        crate::database::lemma_email_unique(db@, ui as int, email_idx(db@, s@.email));
    }
    let row = &db.users[ui];
    DataResponse {
        status: 200,
        data: Ok(
            UpdatedClientUser {
                username: row.user_name.clone(),
                userat: row.user_at.clone(),
                followingcount: row.following_count,
                followerscount: row.followers_count,
                bio: match &row.bio {
                    Some(b) => Some(b.clone()),
                    None => None,
                },
                icon: match &row.icon {
                    Some(s2) => s2.clone(),
                    None => String::new(),
                },
            },
        ),
    }
}

/// Lists the accounts a handle's account follows; an unknown handle
/// reads as a storage failure.
pub fn get_following(db: &Database, user_at: &str) -> (r: DataResponse<Result<
    Vec<UpdatedFollowData>,
    &'static str,
>>)
    requires
        db_wf(db@),
    ensures
        !user_at_taken(db@, user_at@) ==> (r.status == 500 && (r.data matches Err(m) && m@
            == "InternalServerError"@)),
        user_at_taken(db@, user_at@) ==> (r.status == 200 && (r.data matches Ok(v) && {
            let u = db@.users[user_at_idx(db@, user_at@)];
            v@.len() == u.following.len() && (forall|k: int|
                0 <= k < u.following.len() ==> updated_follow_ok(db@, u.following[k], v@[k]))
        })),
{
    let ti = match db.idx_by_user_at(user_at) {
        Some(i) => i,
        None => {
            return DataResponse { status: 500, data: Err("InternalServerError") };
        },
    };
    proof {
        crate::database::lemma_user_at_unique(db@, ti as int, user_at_idx(db@, user_at@));
        assert(crate::database::user_row_wf(db@.users[ti as int], db@.next_user_id));
    }
    let mut v: Vec<UpdatedFollowData> = Vec::new();
    let m = db.users[ti].following.len();
    for k in 0..m
        invariant
            db_wf(db@),
            ti < db@.users.len(),
            m == db@.users[ti as int].following.len(),
            v@.len() == k,
            forall|j: int|
                0 <= j < k ==> updated_follow_ok(db@, db@.users[ti as int].following[j], v@[j]),
    {
        let fid = db.users[ti].following[k];
        proof {
            assert(has_user_id(db@, db@.users[ti as int].following[k as int]));
        }
        match db.idx_by_id(fid) {
            Some(j) => {
                proof {
                    crate::database::lemma_user_id_unique(db@, j as int, user_id_idx(db@, fid));
                }
                let row = &db.users[j];
                v.push(
                    UpdatedFollowData {
                        user_at: row.user_at.clone(),
                        username: row.user_name.clone(),
                        icon: match &row.icon {
                            Some(s) => s.clone(),
                            None => String::new(),
                        },
                    },
                );
            },
            None => {
                proof {
                    assert(false);
                }
            },
        }
    }
    DataResponse { status: 200, data: Ok(v) }
}

/// Lists the accounts following a handle's account; an unknown handle
/// reads as a storage failure.
pub fn get_followers(db: &Database, user_at: &str) -> (r: DataResponse<Result<
    Vec<UpdatedFollowData>,
    &'static str,
>>)
    requires
        db_wf(db@),
    ensures
        !user_at_taken(db@, user_at@) ==> (r.status == 500 && (r.data matches Err(m) && m@
            == "InternalServerError"@)),
        user_at_taken(db@, user_at@) ==> (r.status == 200 && (r.data matches Ok(v) && {
            let u = db@.users[user_at_idx(db@, user_at@)];
            v@.len() == u.followers.len() && (forall|k: int|
                0 <= k < u.followers.len() ==> updated_follow_ok(db@, u.followers[k], v@[k]))
        })),
{
    let ti = match db.idx_by_user_at(user_at) {
        Some(i) => i,
        None => {
            return DataResponse { status: 500, data: Err("InternalServerError") };
        },
    };
    proof {
        crate::database::lemma_user_at_unique(db@, ti as int, user_at_idx(db@, user_at@));
        assert(crate::database::user_row_wf(db@.users[ti as int], db@.next_user_id));
    }
    let mut v: Vec<UpdatedFollowData> = Vec::new();
    let m = db.users[ti].followers.len();
    for k in 0..m
        invariant
            db_wf(db@),
            ti < db@.users.len(),
            m == db@.users[ti as int].followers.len(),
            v@.len() == k,
            forall|j: int|
                0 <= j < k ==> updated_follow_ok(db@, db@.users[ti as int].followers[j], v@[j]),
    {
        let fid = db.users[ti].followers[k];
        proof {
            assert(has_user_id(db@, db@.users[ti as int].followers[k as int]));
        }
        match db.idx_by_id(fid) {
            Some(j) => {
                proof {
                    crate::database::lemma_user_id_unique(db@, j as int, user_id_idx(db@, fid));
                }
                let row = &db.users[j];
                v.push(
                    UpdatedFollowData {
                        user_at: row.user_at.clone(),
                        username: row.user_name.clone(),
                        icon: match &row.icon {
                            Some(s) => s.clone(),
                            None => String::new(),
                        },
                    },
                );
            },
            None => {
                proof {
                    assert(false);
                }
            },
        }
    }
    DataResponse { status: 200, data: Ok(v) }
}

/// A search response: the matching accounts in store order, each with a
/// missing icon read as empty text.
pub open spec fn search_listing_ok(d: DbView, q: Seq<char>, v: Seq<UserWithIcon>) -> bool {
    exists|fd: Seq<FollowData>|
        #[trigger] query_listing_ok(d, q, fd) && v.len() == fd.len() && (forall|k: int|
            0 <= k < fd.len() ==> (v[k].username@ == fd[k].username@ && v[k].user_at@
                == fd[k].userat@ && v[k].icon@ == opt_or_empty(opt_str_view(fd[k].icon))))
}

/// Searches accounts by handle or display name: a blank search text is
/// refused with an empty result; otherwise the matching accounts are
/// returned in store order.
pub fn query(db: &Database, text: &str) -> (r: DataResponse<Result<
    Vec<UserWithIcon>,
    &'static str,
>>)
    requires
        db_wf(db@),
    ensures
        crate::is_blank(text@) ==> (r.status == 400 && (r.data matches Ok(v) && v@.len() == 0)),
        !crate::is_blank(text@) ==> (r.status == 200 && (r.data matches Ok(v)
            && search_listing_ok(db@, text@, v@))),
{
    if str_blank(text) {
        let empty: Vec<UserWithIcon> = Vec::new();
        return DataResponse { status: 400, data: Ok(empty) };
    }
    let found = match db.query_like(text) {
        Ok(q) => q,
        Err(_) => {
            let empty: Vec<UserWithIcon> = Vec::new();
            return DataResponse { status: 500, data: Ok(empty) };
        },
    };
    let mut v: Vec<UserWithIcon> = Vec::new();
    let m = found.len();
    for k in 0..m
        invariant
            m == found@.len(),
            v@.len() == k,
            forall|j: int|
                0 <= j < k ==> (v@[j].username@ == found@[j].username@ && v@[j].user_at@
                    == found@[j].userat@ && v@[j].icon@ == opt_or_empty(
                    opt_str_view(found@[j].icon),
                )),
    {
        let row = &found[k];
        v.push(
            UserWithIcon {
                username: row.username.clone(),
                user_at: row.userat.clone(),
                icon: match &row.icon {
                    Some(s) => s.clone(),
                    None => String::new(),
                },
            },
        );
    }
    proof {
        assert(search_listing_ok(db@, text@, v@)) by {
            assert(query_listing_ok(db@, text@, found@));
        }
    }
    DataResponse { status: 200, data: Ok(v) }
}

/// Lists the comments of a post, newest first, joined with their owners
/// and the caller's like state; an invalid or absent session reads as an
/// anonymous viewer.
pub fn fetch_comments(db: &Database, cookie: Option<&str>, post_id: i32, now: u64, secret: &str) -> (r: DataResponse<Result<Vec<ResponsePost>, &'static str>>)
    requires
        db_wf(db@),
    ensures
        r.status == 200 || r.status == 500,
        r.status == 500 ==> (r.data matches Err(m) && m@ == "InternalServerError"@),
        owners_present(db@, PostFilter::CommentsOf(post_id)) ==> r.status == 200,
        cookie is None && r.status == 200 ==> (r.data matches Ok(v) && response_listing_ok(
            db@,
            None,
            PostFilter::CommentsOf(post_id),
            v@,
        )),
        forall|v: SubView, e: u64|
            #![trigger token_of(spec_sub_payload(v), e, secret@)]
            (cookie matches Some(c) && sub_wf(v) && c@ == token_of(spec_sub_payload(v), e, secret@)
                && now < e && r.status == 200) ==> (r.data matches Ok(posts)
                && response_listing_ok(db@, Some(v.id as i32), PostFilter::CommentsOf(post_id), posts@)),
        forall|v: SubView, e: u64|
            #![trigger token_of(spec_sub_payload(v), e, secret@)]
            (cookie matches Some(c) && sub_wf(v) && c@ == token_of(spec_sub_payload(v), e, secret@)
                && now >= e && r.status == 200) ==> (r.data matches Ok(posts)
                && response_listing_ok(db@, None, PostFilter::CommentsOf(post_id), posts@)),
{
    let viewer = viewer_of_cookie(cookie, now, secret);
    match collect_response_posts(db, PostFilter::CommentsOf(post_id), viewer) {
        Ok(v) => DataResponse { status: 200, data: Ok(v) },
        Err(()) => DataResponse { status: 500, data: Err("InternalServerError") },
    }
}

} // verus!
