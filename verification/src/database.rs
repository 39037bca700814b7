//! The data store: users with their follow relationships, posts, comments
//! and likes, held in memory and specified against a mathematical view.
//!
//! Every operation preserves the store invariant `db_wf`: ids are unique
//! and below the id counters, handles and emails are unique, follower and
//! following lists are duplicate-free, self-free and mutually consistent,
//! and every denormalized count equals the length of its list.

use vstd::prelude::*;

use crate::auth::Sub;
use crate::routes::types::{ClientUser, Reply};
use crate::str_eq;

pub mod user;

use user::User;

verus! {

/// Failure of a store operation.
#[derive(Debug, Clone, Copy, PartialEq, Eq, Structural)]
pub enum DbError {
    /// A row the operation needs does not exist.
    NotFound,
    /// The operation would break a uniqueness or relationship rule.
    Conflict,
    /// An id counter or count is exhausted.
    Full,
}

/// A stored account.
pub struct UserRow {
    pub id: i32,
    pub user_name: String,
    pub user_at: String,
    pub email: String,
    pub password: String,
    pub bio: Option<String>,
    pub icon: Option<String>,
    pub followers: Vec<i32>,
    pub following: Vec<i32>,
    pub followers_count: i32,
    pub following_count: i32,
}

/// A stored post or comment; a comment is a row whose `parent_id` names
/// the post it belongs to.
pub struct PostRow {
    pub post_id: i32,
    pub owner_id: i32,
    pub text: Option<String>,
    pub image: Option<String>,
    pub likes: Vec<i32>,
    pub likes_count: i32,
    pub comments_count: i32,
    pub unix_time: i64,
    pub parent_id: Option<i32>,
}

/// Mathematical view of an account row.
pub struct UserRowView {
    pub id: i32,
    pub user_name: Seq<char>,
    pub user_at: Seq<char>,
    pub email: Seq<char>,
    pub password: Seq<char>,
    pub bio: Option<Seq<char>>,
    pub icon: Option<Seq<char>>,
    pub followers: Seq<i32>,
    pub following: Seq<i32>,
    pub followers_count: i32,
    pub following_count: i32,
}

/// Mathematical view of a post row.
pub struct PostRowView {
    pub post_id: i32,
    pub owner_id: i32,
    pub text: Option<Seq<char>>,
    pub image: Option<Seq<char>>,
    pub likes: Seq<i32>,
    pub likes_count: i32,
    pub comments_count: i32,
    pub unix_time: i64,
    pub parent_id: Option<i32>,
}

pub open spec fn opt_str_view(o: Option<String>) -> Option<Seq<char>> {
    match o {
        Some(s) => Some(s@),
        None => None,
    }
}

impl View for UserRow {
    type V = UserRowView;

    open spec fn view(&self) -> UserRowView {
        UserRowView {
            id: self.id,
            user_name: self.user_name@,
            user_at: self.user_at@,
            email: self.email@,
            password: self.password@,
            bio: opt_str_view(self.bio),
            icon: opt_str_view(self.icon),
            followers: self.followers@,
            following: self.following@,
            followers_count: self.followers_count,
            following_count: self.following_count,
        }
    }
}

impl View for PostRow {
    type V = PostRowView;

    open spec fn view(&self) -> PostRowView {
        PostRowView {
            post_id: self.post_id,
            owner_id: self.owner_id,
            text: opt_str_view(self.text),
            image: opt_str_view(self.image),
            likes: self.likes@,
            likes_count: self.likes_count,
            comments_count: self.comments_count,
            unix_time: self.unix_time,
            parent_id: self.parent_id,
        }
    }
}

/// The store.
pub struct Database {
    pub users: Vec<UserRow>,
    pub posts: Vec<PostRow>,
    pub next_user_id: i32,
    pub next_post_id: i32,
}

/// Mathematical view of the store.
pub struct DbView {
    pub users: Seq<UserRowView>,
    pub posts: Seq<PostRowView>,
    pub next_user_id: i32,
    pub next_post_id: i32,
}

impl View for Database {
    type V = DbView;

    open spec fn view(&self) -> DbView {
        DbView {
            users: self.users@.map_values(|u: UserRow| u@),
            posts: self.posts@.map_values(|p: PostRow| p@),
            next_user_id: self.next_user_id,
            next_post_id: self.next_post_id,
        }
    }
}

// ---------------------------------------------------------------------------
// The store invariant
// ---------------------------------------------------------------------------

pub open spec fn user_row_wf(u: UserRowView, next_id: i32) -> bool {
    &&& 0 < u.id < next_id
    &&& u.followers_count as int == u.followers.len()
    &&& u.following_count as int == u.following.len()
    &&& u.followers.no_duplicates()
    &&& u.following.no_duplicates()
    &&& !u.followers.contains(u.id)
    &&& !u.following.contains(u.id)
    &&& forall|k: int| 0 <= k < u.followers.len() ==> 0 < #[trigger] u.followers[k] < next_id
    &&& forall|k: int| 0 <= k < u.following.len() ==> 0 < #[trigger] u.following[k] < next_id
}

pub open spec fn post_row_wf(p: PostRowView, next_post: i32, next_user: i32) -> bool {
    &&& 0 < p.post_id < next_post
    &&& 0 < p.owner_id < next_user
    &&& p.likes.no_duplicates()
    &&& forall|k: int| 0 <= k < p.likes.len() ==> 0 < #[trigger] p.likes[k] < next_user
    &&& p.likes_count as int == p.likes.len()
    &&& p.comments_count >= 0
    &&& match p.parent_id {
        Some(pid) => 0 < pid < next_post,
        None => true,
    }
}

/// Some stored account has this id.
pub open spec fn has_user_id(d: DbView, id: i32) -> bool {
    exists|j: int| 0 <= j < d.users.len() && (#[trigger] d.users[j]).id == id
}

/// The store invariant.
pub open spec fn db_wf(d: DbView) -> bool {
    &&& 0 < d.next_user_id
    &&& 0 < d.next_post_id
    &&& forall|i: int| 0 <= i < d.users.len() ==> user_row_wf(#[trigger] d.users[i], d.next_user_id)
    &&& forall|i: int, j: int|
        #![trigger d.users[i], d.users[j]]
        0 <= i < j < d.users.len() ==> d.users[i].id != d.users[j].id && d.users[i].user_at
            != d.users[j].user_at && d.users[i].email != d.users[j].email
    &&& forall|i: int, k: int|
        0 <= i < d.users.len() && 0 <= k < d.users[i].followers.len() ==> has_user_id(
            d,
            #[trigger] d.users[i].followers[k],
        )
    &&& forall|i: int, k: int|
        0 <= i < d.users.len() && 0 <= k < d.users[i].following.len() ==> has_user_id(
            d,
            #[trigger] d.users[i].following[k],
        )
    &&& forall|i: int, j: int|
        #![trigger d.users[i].followers.contains(d.users[j].id)]
        #![trigger d.users[j].following.contains(d.users[i].id)]
        0 <= i < d.users.len() && 0 <= j < d.users.len() ==> (d.users[i].followers.contains(
            d.users[j].id,
        ) <==> d.users[j].following.contains(d.users[i].id))
    &&& forall|i: int|
        0 <= i < d.posts.len() ==> post_row_wf(#[trigger] d.posts[i], d.next_post_id, d.next_user_id)
    &&& forall|i: int, j: int|
        #![trigger d.posts[i], d.posts[j]]
        0 <= i < j < d.posts.len() ==> d.posts[i].post_id != d.posts[j].post_id
}

// ---------------------------------------------------------------------------
// Lookup specifications
// ---------------------------------------------------------------------------

/// Some stored account has this handle.
pub open spec fn user_at_taken(d: DbView, ua: Seq<char>) -> bool {
    exists|i: int| 0 <= i < d.users.len() && (#[trigger] d.users[i]).user_at == ua
}

/// Some stored account has this email.
pub open spec fn email_taken(d: DbView, em: Seq<char>) -> bool {
    exists|i: int| 0 <= i < d.users.len() && (#[trigger] d.users[i]).email == em
}

/// The index of the account with this handle (meaningful when taken).
pub open spec fn user_at_idx(d: DbView, ua: Seq<char>) -> int {
    choose|i: int| 0 <= i < d.users.len() && (#[trigger] d.users[i]).user_at == ua
}

/// The index of the account with this email (meaningful when taken).
pub open spec fn email_idx(d: DbView, em: Seq<char>) -> int {
    choose|i: int| 0 <= i < d.users.len() && (#[trigger] d.users[i]).email == em
}

/// The index of the account with this id (meaningful when present).
pub open spec fn user_id_idx(d: DbView, id: i32) -> int {
    choose|i: int| 0 <= i < d.users.len() && (#[trigger] d.users[i]).id == id
}

/// Some stored account carries exactly this claim's email, id and handle.
pub open spec fn has_credentials(d: DbView, v: crate::auth::SubView) -> bool {
    exists|i: int|
        0 <= i < d.users.len() && (#[trigger] d.users[i]).email == v.email && d.users[i].id == v.id
            && d.users[i].user_at == v.user_at
}

/// The follower relation: the target's followers list holds the follower.
pub open spec fn spec_is_following(d: DbView, follower: i32, target: i32) -> bool {
    has_user_id(d, target) && d.users[user_id_idx(d, target)].followers.contains(follower)
}

pub proof fn lemma_user_at_unique(d: DbView, i: int, j: int)
    requires
        db_wf(d),
        0 <= i < d.users.len(),
        0 <= j < d.users.len(),
        d.users[i].user_at == d.users[j].user_at,
    ensures
        i == j,
{
    if i < j {
        assert(d.users[i].user_at != d.users[j].user_at);
    } else if j < i {
        assert(d.users[j].user_at != d.users[i].user_at);
    }
}

pub proof fn lemma_email_unique(d: DbView, i: int, j: int)
    requires
        db_wf(d),
        0 <= i < d.users.len(),
        0 <= j < d.users.len(),
        d.users[i].email == d.users[j].email,
    ensures
        i == j,
{
    if i < j {
        assert(d.users[i].email != d.users[j].email);
    } else if j < i {
        assert(d.users[j].email != d.users[i].email);
    }
}

pub proof fn lemma_user_id_unique(d: DbView, i: int, j: int)
    requires
        db_wf(d),
        0 <= i < d.users.len(),
        0 <= j < d.users.len(),
        d.users[i].id == d.users[j].id,
    ensures
        i == j,
{
    if i < j {
        assert(d.users[i].id != d.users[j].id);
    } else if j < i {
        assert(d.users[j].id != d.users[i].id);
    }
}

// ---------------------------------------------------------------------------
// Construction and lookups
// ---------------------------------------------------------------------------

impl Database {
    /// An empty store.
    pub fn new() -> (db: Database)
        ensures
            db_wf(db@),
            db@.users.len() == 0,
            db@.posts.len() == 0,
            db@.next_user_id == 1,
            db@.next_post_id == 1,
    {
        Database { users: Vec::new(), posts: Vec::new(), next_user_id: 1, next_post_id: 1 }
    }

    /// Index of the account with this handle.
    pub(crate) fn idx_by_user_at(&self, user_at: &str) -> (r: Option<usize>)
        requires
            db_wf(self@),
        ensures
            match r {
                Some(i) => i < self@.users.len() && self@.users[i as int].user_at == user_at@,
                None => !user_at_taken(self@, user_at@),
            },
    {
        let n = self.users.len();
        for i in 0..n
            invariant
                n == self@.users.len(),
                forall|j: int| 0 <= j < i ==> (#[trigger] self@.users[j]).user_at != user_at@,
        {
            if str_eq(self.users[i].user_at.as_str(), user_at) {
                return Some(i);
            }
        }
        None
    }

    /// Index of the account with this email.
    pub(crate) fn idx_by_email(&self, email: &str) -> (r: Option<usize>)
        requires
            db_wf(self@),
        ensures
            match r {
                Some(i) => i < self@.users.len() && self@.users[i as int].email == email@,
                None => !email_taken(self@, email@),
            },
    {
        let n = self.users.len();
        for i in 0..n
            invariant
                n == self@.users.len(),
                forall|j: int| 0 <= j < i ==> (#[trigger] self@.users[j]).email != email@,
        {
            if str_eq(self.users[i].email.as_str(), email) {
                return Some(i);
            }
        }
        None
    }

    /// Index of the account with this id.
    pub(crate) fn idx_by_id(&self, id: i32) -> (r: Option<usize>)
        requires
            db_wf(self@),
        ensures
            match r {
                Some(i) => i < self@.users.len() && self@.users[i as int].id == id,
                None => !has_user_id(self@, id),
            },
    {
        let n = self.users.len();
        for i in 0..n
            invariant
                n == self@.users.len(),
                forall|j: int| 0 <= j < i ==> (#[trigger] self@.users[j]).id != id,
        {
            if self.users[i].id == id {
                return Some(i);
            }
        }
        None
    }

    /// Existence probe for a handle.
    pub fn user_exists(&self, user_at: &str) -> (b: bool)
        requires
            db_wf(self@),
        ensures
            b == user_at_taken(self@, user_at@),
    {
        self.idx_by_user_at(user_at).is_some()
    }

    /// Existence probe for an email.
    pub fn email_exists(&self, email: &str) -> (b: bool)
        requires
            db_wf(self@),
        ensures
            b == email_taken(self@, email@),
    {
        self.idx_by_email(email).is_some()
    }

    /// The email of the account with this handle.
    pub fn get_email_from_user_at(&self, user_at: &str) -> (r: Result<String, DbError>)
        requires
            db_wf(self@),
        ensures
            r is Ok <==> user_at_taken(self@, user_at@),
            r matches Ok(e) ==> e@ == self@.users[user_at_idx(self@, user_at@)].email,
    {
        match self.idx_by_user_at(user_at) {
            Some(i) => {
                proof {
                    lemma_user_at_unique(self@, i as int, user_at_idx(self@, user_at@));
                }
                Ok(self.users[i].email.clone())
            },
            None => Err(DbError::NotFound),
        }
    }

    /// The id of the account with this email.
    pub fn get_id_from_email(&self, email: &str) -> (r: Result<i32, DbError>)
        requires
            db_wf(self@),
        ensures
            r is Ok <==> email_taken(self@, email@),
            r matches Ok(id) ==> id == self@.users[email_idx(self@, email@)].id,
    {
        match self.idx_by_email(email) {
            Some(i) => {
                proof {
                    lemma_email_unique(self@, i as int, email_idx(self@, email@));
                }
                Ok(self.users[i].id)
            },
            None => Err(DbError::NotFound),
        }
    }

    /// The email of the account with this id.
    pub fn get_email_from_id(&self, id: i32) -> (r: Result<String, DbError>)
        requires
            db_wf(self@),
        ensures
            r is Ok <==> has_user_id(self@, id),
            r matches Ok(e) ==> e@ == self@.users[user_id_idx(self@, id)].email,
    {
        match self.idx_by_id(id) {
            Some(i) => {
                proof {
                    lemma_user_id_unique(self@, i as int, user_id_idx(self@, id));
                }
                Ok(self.users[i].email.clone())
            },
            None => Err(DbError::NotFound),
        }
    }

    /// Whether the stored account named by the claim's email still carries
    /// exactly the claim's id and handle.
    pub fn user_has_credentials(&self, sub: &Sub) -> (b: bool)
        requires
            db_wf(self@),
        ensures
            b == has_credentials(self@, sub@),
    {
        match self.idx_by_email(sub.email.as_str()) {
            Some(i) => {
                let row = &self.users[i];
                let b = row.id == sub.id && str_eq(row.user_at.as_str(), sub.user_at.as_str());
                proof {
                    if !b {
                        assert forall|j: int|
                            0 <= j < self@.users.len() && (#[trigger] self@.users[j]).email
                                == sub@.email implies !(self@.users[j].id == sub@.id
                            && self@.users[j].user_at == sub@.user_at) by {
                            lemma_email_unique(self@, i as int, j);
                        }
                    }
                }
                b
            },
            None => false,
        }
    }

    /// The claim for the account with this email.
    pub fn make_jwt_claims(&self, email: &str) -> (r: Result<Sub, Reply>)
        requires
            db_wf(self@),
        ensures
            r is Ok <==> email_taken(self@, email@),
            r matches Ok(s) ==> {
                let u = self@.users[email_idx(self@, email@)];
                s@.id == u.id && s@.user_at == u.user_at && s@.email == u.email
            },
            r matches Err(e) ==> e.status == 403 && e.message@ == "User does not exist"@,
    {
        match self.idx_by_email(email) {
            Some(i) => {
                proof {
                    lemma_email_unique(self@, i as int, email_idx(self@, email@));
                }
                let row = &self.users[i];
                let rec = UserWithID {
                    email: row.email.clone(),
                    userat: row.user_at.clone(),
                    id: row.id,
                };
                Ok(Sub { id: rec.id, user_at: rec.userat, email: rec.email })
            },
            None => Err(Reply { status: 403, message: "User does not exist" }),
        }
    }

    /// The public account data for this email.
    pub fn get_client_data(&self, email: &str) -> (r: Result<ClientUser, ()>)
        requires
            db_wf(self@),
        ensures
            r is Ok <==> email_taken(self@, email@),
            r matches Ok(c) ==> {
                let u = self@.users[email_idx(self@, email@)];
                c.username@ == u.user_name && c.userat@ == u.user_at && c.followingcount
                    == u.following_count && c.followerscount == u.followers_count && opt_str_view(
                    c.bio,
                ) == u.bio && opt_str_view(c.icon) == u.icon
            },
    {
        match self.idx_by_email(email) {
            Some(i) => {
                proof {
                    lemma_email_unique(self@, i as int, email_idx(self@, email@));
                }
                let row = &self.users[i];
                Ok(
                    ClientUser {
                        username: row.user_name.clone(),
                        userat: row.user_at.clone(),
                        followingcount: row.following_count,
                        followerscount: row.followers_count,
                        bio: match &row.bio {
                            Some(b) => Some(b.clone()),
                            None => None,
                        },
                        icon: match &row.icon {
                            Some(s) => Some(s.clone()),
                            None => None,
                        },
                    },
                )
            },
            None => Err(()),
        }
    }

    /// Whether this email names an account whose stored hash matches the
    /// password; an unknown email matches nothing.
    pub fn verify_password(&self, email: &str, password: &str) -> (b: bool)
        requires
            db_wf(self@),
        ensures
            b == (email_taken(self@, email@) && crate::auth::hash::verifies(
                self@.users[email_idx(self@, email@)].password,
                password@,
            )),
    {
        match self.idx_by_email(email) {
            Some(i) => {
                proof {
                    lemma_email_unique(self@, i as int, email_idx(self@, email@));
                }
                crate::auth::hash::compare_password(password, self.users[i].password.as_str())
            },
            None => false,
        }
    }

    /// Whether `follow_suspect_id` follows the owner: the owner's followers
    /// list is consulted, and on a hit the suspect's own following list
    /// confirms it. Fails when a consulted account is missing.
    pub fn is_following(&self, possibly_followed_owner_id: i32, follow_suspect_id: i32) -> (r:
        Result<bool, DbError>)
        requires
            db_wf(self@),
        ensures
            r matches Ok(b) ==> b == spec_is_following(
                self@,
                follow_suspect_id,
                possibly_followed_owner_id,
            ),
            r is Err ==> !has_user_id(self@, possibly_followed_owner_id) || (spec_is_following(
                self@,
                follow_suspect_id,
                possibly_followed_owner_id,
            ) && !has_user_id(self@, follow_suspect_id)),
    {
        let owner = match self.idx_by_id(possibly_followed_owner_id) {
            Some(i) => i,
            None => {
                return Err(DbError::NotFound);
            },
        };
        proof {
            lemma_user_id_unique(self@, owner as int, user_id_idx(self@, possibly_followed_owner_id));
        }
        if !contains_id(&self.users[owner].followers, follow_suspect_id) {
            return Ok(false);
        }
        let suspect = match self.idx_by_id(follow_suspect_id) {
            Some(i) => i,
            None => {
                return Err(DbError::NotFound);
            },
        };
        if contains_id(&self.users[suspect].following, possibly_followed_owner_id) {
            Ok(true)
        } else {
            Ok(false)
        }
    }
}

/// Membership probe on an id list.
pub fn contains_id(v: &Vec<i32>, id: i32) -> (b: bool)
    ensures
        b == v@.contains(id),
{
    let n = v.len();
    for i in 0..n
        invariant
            n == v@.len(),
            forall|j: int| 0 <= j < i ==> v@[j] != id,
    {
        if v[i] == id {
            return true;
        }
    }
    false
}


// ---------------------------------------------------------------------------
// List helpers
// ---------------------------------------------------------------------------

/// The list with one occurrence of `x` removed, or the list itself when
/// `x` is absent.
pub open spec fn remove_id(s: Seq<i32>, x: i32) -> Seq<i32> {
    if s.contains(x) {
        s.remove(s.index_of(x))
    } else {
        s
    }
}

pub proof fn lemma_push_contains(s: Seq<i32>, x: i32, y: i32)
    ensures
        s.push(x).contains(y) <==> (s.contains(y) || x == y),
{
    if s.contains(y) {
        let i = choose|i: int| 0 <= i < s.len() && s[i] == y;
        assert(s.push(x)[i] == y);
    }
    if x == y {
        assert(s.push(x)[s.len() as int] == y);
    }
    if s.push(x).contains(y) {
        let i = choose|i: int| 0 <= i < s.push(x).len() && s.push(x)[i] == y;
        if i < s.len() {
            assert(s[i] == y);
        }
    }
}

pub proof fn lemma_remove_id_props(s: Seq<i32>, x: i32)
    requires
        s.no_duplicates(),
    ensures
        !remove_id(s, x).contains(x),
        forall|y: i32| y != x ==> (remove_id(s, x).contains(y) == s.contains(y)),
        s.contains(x) ==> remove_id(s, x).len() == s.len() - 1,
        !s.contains(x) ==> remove_id(s, x) == s,
        remove_id(s, x).no_duplicates(),
        forall|k: int| 0 <= k < remove_id(s, x).len() ==> s.contains(#[trigger] remove_id(s, x)[k]),
{
    if s.contains(x) {
        let i = s.index_of(x);
        assert(0 <= i < s.len() && s[i] == x);
        let t = s.remove(i);
        assert(t =~= s.subrange(0, i) + s.subrange(i + 1, s.len() as int));
        assert forall|k: int| 0 <= k < t.len() implies #[trigger] t[k] == (if k < i {
            s[k]
        } else {
            s[k + 1]
        }) by {}
        assert forall|k: int| 0 <= k < t.len() implies s.contains(#[trigger] t[k]) by {
            if k < i {
                assert(t[k] == s[k]);
            } else {
                assert(t[k] == s[k + 1]);
            }
        }
        if t.contains(x) {
            let k = choose|k: int| 0 <= k < t.len() && t[k] == x;
            if k < i {
                assert(s[k] == x && s[i] == x);
            } else {
                assert(s[k + 1] == x && s[i] == x);
            }
        }
        assert forall|y: i32| y != x implies (t.contains(y) == s.contains(y)) by {
            if s.contains(y) {
                let k = choose|k: int| 0 <= k < s.len() && s[k] == y;
                if k < i {
                    assert(t[k] == y);
                } else if k > i {
                    assert(t[k - 1] == y);
                }
            }
            if t.contains(y) {
                let k = choose|k: int| 0 <= k < t.len() && t[k] == y;
                if k < i {
                    assert(s[k] == y);
                } else {
                    assert(s[k + 1] == y);
                }
            }
        }
        assert forall|a: int, b: int| 0 <= a < b < t.len() implies t[a] != t[b] by {
            let sa: int = if a < i { a } else { a + 1 };
            let sb: int = if b < i { b } else { b + 1 };
            assert(t[a] == s[sa] && t[b] == s[sb]);
        }
    }
}

// ---------------------------------------------------------------------------
// Invariant preservation for single-row field updates
// ---------------------------------------------------------------------------

/// A store whose only change is one account row, with the relationship
/// fields kept and any new handle or email not taken elsewhere, stays
/// well-formed.
pub proof fn lemma_wf_field_update(d0: DbView, d1: DbView, idx: int)
    requires
        db_wf(d0),
        0 <= idx < d0.users.len(),
        d1.users.len() == d0.users.len(),
        d1.posts == d0.posts,
        d1.next_user_id == d0.next_user_id,
        d1.next_post_id == d0.next_post_id,
        forall|i: int| 0 <= i < d0.users.len() && i != idx ==> d1.users[i] == d0.users[i],
        d1.users[idx].id == d0.users[idx].id,
        d1.users[idx].followers == d0.users[idx].followers,
        d1.users[idx].following == d0.users[idx].following,
        d1.users[idx].followers_count == d0.users[idx].followers_count,
        d1.users[idx].following_count == d0.users[idx].following_count,
        d1.users[idx].user_at == d0.users[idx].user_at || forall|j: int|
            0 <= j < d0.users.len() && j != idx ==> d0.users[j].user_at != d1.users[idx].user_at,
        d1.users[idx].email == d0.users[idx].email || forall|j: int|
            0 <= j < d0.users.len() && j != idx ==> d0.users[j].email != d1.users[idx].email,
    ensures
        db_wf(d1),
{
    assert forall|i: int| 0 <= i < d1.users.len() implies user_row_wf(
        #[trigger] d1.users[i],
        d1.next_user_id,
    ) by {
        assert(user_row_wf(d0.users[i], d0.next_user_id));
    }
    assert forall|i: int, j: int|
        #![trigger d1.users[i], d1.users[j]]
        0 <= i < j < d1.users.len() implies d1.users[i].id != d1.users[j].id && d1.users[i].user_at
        != d1.users[j].user_at && d1.users[i].email != d1.users[j].email by {
        assert(d0.users[i].id != d0.users[j].id);
    }
    assert forall|i: int, k: int|
        0 <= i < d1.users.len() && 0 <= k < d1.users[i].followers.len() implies has_user_id(
        d1,
        #[trigger] d1.users[i].followers[k],
    ) by {
        assert(d1.users[i].followers == d0.users[i].followers);
        assert(has_user_id(d0, d0.users[i].followers[k]));
        let j = choose|j: int| 0 <= j < d0.users.len() && (#[trigger] d0.users[j]).id
            == d0.users[i].followers[k];
        assert(d1.users[j].id == d0.users[j].id);
    }
    assert forall|i: int, k: int|
        0 <= i < d1.users.len() && 0 <= k < d1.users[i].following.len() implies has_user_id(
        d1,
        #[trigger] d1.users[i].following[k],
    ) by {
        assert(d1.users[i].following == d0.users[i].following);
        assert(has_user_id(d0, d0.users[i].following[k]));
        let j = choose|j: int| 0 <= j < d0.users.len() && (#[trigger] d0.users[j]).id
            == d0.users[i].following[k];
        assert(d1.users[j].id == d0.users[j].id);
    }
    assert forall|i: int, j: int|
        #![trigger d1.users[i].followers.contains(d1.users[j].id)]
        #![trigger d1.users[j].following.contains(d1.users[i].id)]
        0 <= i < d1.users.len() && 0 <= j < d1.users.len() implies (d1.users[i].followers.contains(
        d1.users[j].id,
    ) <==> d1.users[j].following.contains(d1.users[i].id)) by {
        assert(d1.users[i].followers == d0.users[i].followers);
        assert(d1.users[j].following == d0.users[j].following);
        assert(d1.users[i].id == d0.users[i].id);
        assert(d1.users[j].id == d0.users[j].id);
        assert(d0.users[i].followers.contains(d0.users[j].id) <==> d0.users[j].following.contains(
            d0.users[i].id,
        ));
    }
}

/// The view of one account row updated in one field-changing operation.
pub open spec fn db_with_users(d: DbView, users: Seq<UserRowView>) -> DbView {
    DbView { users: users, posts: d.posts, next_user_id: d.next_user_id, next_post_id: d.next_post_id }
}

impl Database {
    /// Stores a new hash for the account with this email; an unknown
    /// email changes nothing, as an update of no rows.
    pub fn change_password(&mut self, email: &str, new_password: &str) -> (r: Result<(), DbError>)
        requires
            db_wf(old(self)@),
        ensures
            db_wf(final(self)@),
            r is Ok,
            !email_taken(old(self)@, email@) ==> final(self)@ == old(self)@,
            email_taken(old(self)@, email@) ==> final(self)@ == db_with_users(
                old(self)@,
                old(self)@.users.update(
                    email_idx(old(self)@, email@),
                    UserRowView {
                        password: new_password@,
                        ..old(self)@.users[email_idx(old(self)@, email@)]
                    },
                ),
            ),
    {
        let ghost d0 = self@;
        match self.idx_by_email(email) {
            None => Ok(()),
            Some(i) => {
                proof {
                    lemma_email_unique(d0, i as int, email_idx(d0, email@));
                }
                self.users[i].password = new_password.to_owned();
                proof {
                    assert(self@.users =~= d0.users.update(
                        i as int,
                        UserRowView { password: new_password@, ..d0.users[i as int] },
                    ));
                    lemma_wf_field_update(d0, self@, i as int);
                }
                Ok(())
            },
        }
    }

    /// Stores a new email for the account with this email. Fails with a
    /// conflict when the new email is already taken; an unknown old email
    /// changes nothing.
    pub fn change_email(&mut self, email: &str, new_email: &str) -> (r: Result<(), DbError>)
        requires
            db_wf(old(self)@),
        ensures
            db_wf(final(self)@),
            r is Err <==> (email_taken(old(self)@, new_email@) && !(email@ == new_email@
                && email_taken(old(self)@, email@))),
            r is Err ==> final(self)@ == old(self)@,
            r is Ok && !email_taken(old(self)@, email@) ==> final(self)@ == old(self)@,
            r is Ok && email_taken(old(self)@, email@) ==> final(self)@ == db_with_users(
                old(self)@,
                old(self)@.users.update(
                    email_idx(old(self)@, email@),
                    UserRowView {
                        email: new_email@,
                        ..old(self)@.users[email_idx(old(self)@, email@)]
                    },
                ),
            ),
    {
        let ghost d0 = self@;
        let new_taken = self.idx_by_email(new_email);
        match self.idx_by_email(email) {
            None => {
                match new_taken {
                    Some(_) => Err(DbError::Conflict),
                    None => Ok(()),
                }
            },
            Some(i) => {
                proof {
                    lemma_email_unique(d0, i as int, email_idx(d0, email@));
                }
                match new_taken {
                    Some(j) => {
                        if i == j {
                            // the new email is the account's own: rewrite it
                            proof {
                                lemma_email_unique(d0, j as int, email_idx(d0, new_email@));
                            }
                            self.users[i].email = new_email.to_owned();
                            proof {
                                assert(self@.users =~= d0.users.update(
                                    i as int,
                                    UserRowView { email: new_email@, ..d0.users[i as int] },
                                ));
                                assert forall|k: int|
                                    0 <= k < d0.users.len() && k != i as int implies d0.users[k].email
                                    != new_email@ by {
                                    if d0.users[k].email == new_email@ {
                                        lemma_email_unique(d0, k, j as int);
                                    }
                                }
                                lemma_wf_field_update(d0, self@, i as int);
                            }
                            Ok(())
                        } else {
                            Err(DbError::Conflict)
                        }
                    },
                    None => {
                        self.users[i].email = new_email.to_owned();
                        proof {
                            assert(self@.users =~= d0.users.update(
                                i as int,
                                UserRowView { email: new_email@, ..d0.users[i as int] },
                            ));
                            lemma_wf_field_update(d0, self@, i as int);
                        }
                        Ok(())
                    },
                }
            },
        }
    }

    /// Stores a new handle for the account with this email. Fails with a
    /// conflict when the new handle is already taken; an unknown email
    /// changes nothing.
    pub fn change_user_at(&mut self, email: &str, new_user_at: &str) -> (r: Result<(), DbError>)
        requires
            db_wf(old(self)@),
        ensures
            db_wf(final(self)@),
            r is Err <==> (user_at_taken(old(self)@, new_user_at@) && !(email_taken(old(self)@, email@)
                && old(self)@.users[email_idx(old(self)@, email@)].user_at == new_user_at@)),
            r is Err ==> final(self)@ == old(self)@,
            r is Ok && !email_taken(old(self)@, email@) ==> final(self)@ == old(self)@,
            r is Ok && email_taken(old(self)@, email@) ==> final(self)@ == db_with_users(
                old(self)@,
                old(self)@.users.update(
                    email_idx(old(self)@, email@),
                    UserRowView {
                        user_at: new_user_at@,
                        ..old(self)@.users[email_idx(old(self)@, email@)]
                    },
                ),
            ),
    {
        let ghost d0 = self@;
        let new_taken = self.idx_by_user_at(new_user_at);
        match self.idx_by_email(email) {
            None => {
                match new_taken {
                    Some(_) => Err(DbError::Conflict),
                    None => Ok(()),
                }
            },
            Some(i) => {
                proof {
                    lemma_email_unique(d0, i as int, email_idx(d0, email@));
                }
                match new_taken {
                    Some(j) => {
                        if i == j {
                            proof {
                                lemma_user_at_unique(d0, j as int, user_at_idx(d0, new_user_at@));
                            }
                            self.users[i].user_at = new_user_at.to_owned();
                            proof {
                                assert(self@.users =~= d0.users.update(
                                    i as int,
                                    UserRowView { user_at: new_user_at@, ..d0.users[i as int] },
                                ));
                                assert forall|k: int|
                                    0 <= k < d0.users.len() && k != i as int implies d0.users[k].user_at
                                    != new_user_at@ by {
                                    if d0.users[k].user_at == new_user_at@ {
                                        lemma_user_at_unique(d0, k, j as int);
                                    }
                                }
                                lemma_wf_field_update(d0, self@, i as int);
                            }
                            Ok(())
                        } else {
                            Err(DbError::Conflict)
                        }
                    },
                    None => {
                        self.users[i].user_at = new_user_at.to_owned();
                        proof {
                            assert(self@.users =~= d0.users.update(
                                i as int,
                                UserRowView { user_at: new_user_at@, ..d0.users[i as int] },
                            ));
                            lemma_wf_field_update(d0, self@, i as int);
                        }
                        Ok(())
                    },
                }
            },
        }
    }

    /// Stores a new bio for the account with this email; an unchanged bio
    /// is left as it is. An unknown email changes nothing.
    pub fn change_bio(&mut self, email: &str, bio: &str) -> (r: Result<(), DbError>)
        requires
            db_wf(old(self)@),
        ensures
            db_wf(final(self)@),
            r is Ok,
            !email_taken(old(self)@, email@) ==> final(self)@ == old(self)@,
            email_taken(old(self)@, email@) ==> final(self)@ == db_with_users(
                old(self)@,
                old(self)@.users.update(
                    email_idx(old(self)@, email@),
                    UserRowView {
                        bio: Some(bio@),
                        ..old(self)@.users[email_idx(old(self)@, email@)]
                    },
                ),
            ),
    {
        let ghost d0 = self@;
        match self.idx_by_email(email) {
            None => Ok(()),
            Some(i) => {
                proof {
                    lemma_email_unique(d0, i as int, email_idx(d0, email@));
                }
                self.users[i].bio = Some(bio.to_owned());
                proof {
                    assert(self@.users =~= d0.users.update(
                        i as int,
                        UserRowView { bio: Some(bio@), ..d0.users[i as int] },
                    ));
                    lemma_wf_field_update(d0, self@, i as int);
                }
                Ok(())
            },
        }
    }

    /// Stores a new display name for the account with this email; an
    /// unknown email changes nothing.
    pub fn change_username(&mut self, email: &str, username: &str) -> (r: Result<(), DbError>)
        requires
            db_wf(old(self)@),
        ensures
            db_wf(final(self)@),
            r is Ok,
            !email_taken(old(self)@, email@) ==> final(self)@ == old(self)@,
            email_taken(old(self)@, email@) ==> final(self)@ == db_with_users(
                old(self)@,
                old(self)@.users.update(
                    email_idx(old(self)@, email@),
                    UserRowView {
                        user_name: username@,
                        ..old(self)@.users[email_idx(old(self)@, email@)]
                    },
                ),
            ),
    {
        let ghost d0 = self@;
        match self.idx_by_email(email) {
            None => Ok(()),
            Some(i) => {
                proof {
                    lemma_email_unique(d0, i as int, email_idx(d0, email@));
                }
                self.users[i].user_name = username.to_owned();
                proof {
                    assert(self@.users =~= d0.users.update(
                        i as int,
                        UserRowView { user_name: username@, ..d0.users[i as int] },
                    ));
                    lemma_wf_field_update(d0, self@, i as int);
                }
                Ok(())
            },
        }
    }

    /// Stores a new icon for the account with this email; an unknown
    /// email changes nothing.
    pub fn change_icon(&mut self, email: &str, icon: &str) -> (r: Result<(), DbError>)
        requires
            db_wf(old(self)@),
        ensures
            db_wf(final(self)@),
            r is Ok,
            !email_taken(old(self)@, email@) ==> final(self)@ == old(self)@,
            email_taken(old(self)@, email@) ==> final(self)@ == db_with_users(
                old(self)@,
                old(self)@.users.update(
                    email_idx(old(self)@, email@),
                    UserRowView {
                        icon: Some(icon@),
                        ..old(self)@.users[email_idx(old(self)@, email@)]
                    },
                ),
            ),
    {
        let ghost d0 = self@;
        match self.idx_by_email(email) {
            None => Ok(()),
            Some(i) => {
                proof {
                    lemma_email_unique(d0, i as int, email_idx(d0, email@));
                }
                self.users[i].icon = Some(icon.to_owned());
                proof {
                    assert(self@.users =~= d0.users.update(
                        i as int,
                        UserRowView { icon: Some(icon@), ..d0.users[i as int] },
                    ));
                    lemma_wf_field_update(d0, self@, i as int);
                }
                Ok(())
            },
        }
    }
}

// ---------------------------------------------------------------------------
// Registration
// ---------------------------------------------------------------------------

/// The stored row for a fresh account: empty relationship lists, zero
/// counts, no bio and no icon.
pub open spec fn new_user_row(v: user::UserFormView, id: i32) -> UserRowView {
    UserRowView {
        id: id,
        user_name: v.user_name,
        user_at: v.user_at,
        email: v.email,
        password: v.password,
        bio: None,
        icon: None,
        followers: Seq::empty(),
        following: Seq::empty(),
        followers_count: 0,
        following_count: 0,
    }
}

/// The store after a successful registration.
pub open spec fn spec_make_user(d: DbView, v: user::UserFormView) -> DbView {
    DbView {
        users: d.users.push(new_user_row(v, d.next_user_id)),
        posts: d.posts,
        next_user_id: (d.next_user_id + 1) as i32,
        next_post_id: d.next_post_id,
    }
}

impl Database {
    /// Registers an account: the handle must be free, then the email; a
    /// fresh id is assigned. Fails with the handle conflict first, the
    /// email conflict second, and an internal error only when the id
    /// space is exhausted.
    pub fn make_user(&mut self, user: &User) -> (r: Result<(), Reply>)
        requires
            db_wf(old(self)@),
        ensures
            db_wf(final(self)@),
            user_at_taken(old(self)@, user@.user_at) ==> (r matches Err(e) && e.status == 400
                && e.message@ == "Username already in use"@ && final(self)@ == old(self)@),
            !user_at_taken(old(self)@, user@.user_at) && email_taken(old(self)@, user@.email) ==> (
            r matches Err(e) && e.status == 400 && e.message@ == "Email already in use"@
                && final(self)@ == old(self)@),
            !user_at_taken(old(self)@, user@.user_at) && !email_taken(old(self)@, user@.email)
                && old(self)@.next_user_id < i32::MAX ==> (r is Ok && final(self)@ == spec_make_user(
                old(self)@,
                user@,
            )),
            !user_at_taken(old(self)@, user@.user_at) && !email_taken(old(self)@, user@.email)
                && old(self)@.next_user_id == i32::MAX ==> (r matches Err(e) && e.status == 500
                && e.message@ == "Internal server error"@ && final(self)@ == old(self)@),
    {
        let ghost d0 = self@;
        if self.user_exists(user.user_at.as_str()) {
            return Err(Reply { status: 400, message: "Username already in use" });
        }
        if self.email_exists(user.email.as_str()) {
            return Err(Reply { status: 400, message: "Email already in use" });
        }
        if self.next_user_id == i32::MAX {
            return Err(Reply { status: 500, message: "Internal server error" });
        }
        let id = self.next_user_id;
        self.next_user_id = self.next_user_id + 1;
        self.users.push(
            UserRow {
                id,
                user_name: user.user_name.clone(),
                user_at: user.user_at.clone(),
                email: user.email.clone(),
                password: user.password.clone(),
                bio: None,
                icon: None,
                followers: Vec::new(),
                following: Vec::new(),
                followers_count: 0,
                following_count: 0,
            },
        );
        proof {
            let d1 = self@;
            assert(d1.users =~= d0.users.push(new_user_row(user@, d0.next_user_id)));
            assert(d1 == spec_make_user(d0, user@));
            let nid = d0.next_user_id;
            assert forall|i: int| 0 <= i < d1.users.len() implies user_row_wf(
                #[trigger] d1.users[i],
                d1.next_user_id,
            ) by {
                if i < d0.users.len() {
                    assert(user_row_wf(d0.users[i], d0.next_user_id));
                } else {
                    assert(d1.users[i] == new_user_row(user@, nid));
                }
            }
            assert forall|i: int, j: int|
                #![trigger d1.users[i], d1.users[j]]
                0 <= i < j < d1.users.len() implies d1.users[i].id != d1.users[j].id
                && d1.users[i].user_at != d1.users[j].user_at && d1.users[i].email
                != d1.users[j].email by {
                if j < d0.users.len() {
                    assert(d0.users[i].id != d0.users[j].id);
                } else {
                    assert(d1.users[j] == new_user_row(user@, nid));
                    assert(user_row_wf(d0.users[i], d0.next_user_id));
                    if d0.users[i].user_at == user@.user_at {
                        assert(user_at_taken(d0, user@.user_at));
                    }
                    if d0.users[i].email == user@.email {
                        assert(email_taken(d0, user@.email));
                    }
                }
            }
            assert forall|i: int, k: int|
                0 <= i < d1.users.len() && 0 <= k < d1.users[i].followers.len() implies has_user_id(
                d1,
                #[trigger] d1.users[i].followers[k],
            ) by {
                assert(i < d0.users.len());
                assert(has_user_id(d0, d0.users[i].followers[k]));
                let j = choose|j: int| 0 <= j < d0.users.len() && (#[trigger] d0.users[j]).id
                    == d0.users[i].followers[k];
                assert(d1.users[j].id == d0.users[j].id);
            }
            assert forall|i: int, k: int|
                0 <= i < d1.users.len() && 0 <= k < d1.users[i].following.len() implies has_user_id(
                d1,
                #[trigger] d1.users[i].following[k],
            ) by {
                assert(i < d0.users.len());
                assert(has_user_id(d0, d0.users[i].following[k]));
                let j = choose|j: int| 0 <= j < d0.users.len() && (#[trigger] d0.users[j]).id
                    == d0.users[i].following[k];
                assert(d1.users[j].id == d0.users[j].id);
            }
            assert forall|i: int, j: int|
                #![trigger d1.users[i].followers.contains(d1.users[j].id)]
                #![trigger d1.users[j].following.contains(d1.users[i].id)]
                0 <= i < d1.users.len() && 0 <= j < d1.users.len() implies (
            d1.users[i].followers.contains(d1.users[j].id) <==> d1.users[j].following.contains(
                d1.users[i].id,
            )) by {
                let newrow = new_user_row(user@, nid);
                if i < d0.users.len() && j < d0.users.len() {
                    assert(d0.users[i].followers.contains(d0.users[j].id)
                        <==> d0.users[j].following.contains(d0.users[i].id));
                } else if i < d0.users.len() && j == d0.users.len() {
                    // the new account follows nobody and its id is fresh
                    assert(user_row_wf(d0.users[i], d0.next_user_id));
                    if d1.users[i].followers.contains(newrow.id) {
                        let k = choose|k: int|
                            0 <= k < d0.users[i].followers.len() && d0.users[i].followers[k]
                                == newrow.id;
                        assert(0 < d0.users[i].followers[k] < nid);
                    }
                } else if i == d0.users.len() && j < d0.users.len() {
                    assert(user_row_wf(d0.users[j], d0.next_user_id));
                    if d1.users[j].following.contains(newrow.id) {
                        let k = choose|k: int|
                            0 <= k < d0.users[j].following.len() && d0.users[j].following[k]
                                == newrow.id;
                        assert(0 < d0.users[j].following[k] < nid);
                    }
                }
            }
            assert forall|i: int| 0 <= i < d1.posts.len() implies post_row_wf(
                #[trigger] d1.posts[i],
                d1.next_post_id,
                d1.next_user_id,
            ) by {
                assert(post_row_wf(d0.posts[i], d0.next_post_id, d0.next_user_id));
            }
        }
        Ok(())
    }
}



// ---------------------------------------------------------------------------
// Follow and unfollow
// ---------------------------------------------------------------------------

/// One account row after `follower` starts following `target`.
pub open spec fn row_after_follow(u: UserRowView, target: i32, follower: i32) -> UserRowView {
    if u.id == target {
        UserRowView {
            followers: u.followers.push(follower),
            followers_count: (u.followers_count + 1) as i32,
            ..u
        }
    } else if u.id == follower {
        UserRowView {
            following: u.following.push(target),
            following_count: (u.following_count + 1) as i32,
            ..u
        }
    } else {
        u
    }
}

/// All account rows after `follower` starts following `target`.
pub open spec fn spec_follow(users: Seq<UserRowView>, target: i32, follower: i32) -> Seq<
    UserRowView,
> {
    users.map_values(|u: UserRowView| row_after_follow(u, target, follower))
}

/// One account row after `unfollowing` stops following `target`.
pub open spec fn row_after_unfollow(u: UserRowView, target: i32, unfollowing: i32) -> UserRowView {
    if u.id == target {
        UserRowView {
            followers: remove_id(u.followers, unfollowing),
            followers_count: (u.followers_count - 1) as i32,
            ..u
        }
    } else if u.id == unfollowing {
        UserRowView {
            following: remove_id(u.following, target),
            following_count: (u.following_count - 1) as i32,
            ..u
        }
    } else {
        u
    }
}

/// All account rows after `unfollowing` stops following `target`.
pub open spec fn spec_unfollow(users: Seq<UserRowView>, target: i32, unfollowing: i32) -> Seq<
    UserRowView,
> {
    users.map_values(|u: UserRowView| row_after_unfollow(u, target, unfollowing))
}

/// Removing an element just pushed restores the original list.
proof fn lemma_push_then_remove(s: Seq<i32>, x: i32)
    requires
        !s.contains(x),
    ensures
        remove_id(s.push(x), x) == s,
{
    assert(s.push(x)[s.len() as int] == x);
    assert(s.push(x).contains(x));
    let i = s.push(x).index_of(x);
    assert(0 <= i < s.push(x).len() && s.push(x)[i] == x);
    if i < s.len() {
        assert(s[i] == x);
    }
    assert(i == s.len());
    assert(s.push(x).remove(i) =~= s);
}

impl Database {
    /// Records that `following_id` follows `target_id`: appended to the
    /// target's followers and to the follower's following, with both
    /// counts incremented. Fails when either account is missing, when the
    /// two are the same, when the relation already holds, or when a count
    /// is exhausted; a failure changes nothing.
    pub fn follow_user(&mut self, target_id: i32, following_id: i32) -> (r: Result<(), DbError>)
        requires
            db_wf(old(self)@),
        ensures
            db_wf(final(self)@),
            !has_user_id(old(self)@, target_id) || !has_user_id(old(self)@, following_id) ==> (r
                == Result::<(), DbError>::Err(DbError::NotFound) && final(self)@ == old(self)@),
            has_user_id(old(self)@, target_id) && has_user_id(old(self)@, following_id) && target_id
                == following_id ==> (r == Result::<(), DbError>::Err(DbError::Conflict) && final(self)@
                == old(self)@),
            has_user_id(old(self)@, target_id) && has_user_id(old(self)@, following_id) && target_id
                != following_id && spec_is_following(old(self)@, following_id, target_id) ==> (r
                == Result::<(), DbError>::Err(DbError::Conflict) && final(self)@ == old(self)@),
            has_user_id(old(self)@, target_id) && has_user_id(old(self)@, following_id) && target_id
                != following_id && !spec_is_following(old(self)@, following_id, target_id)
                && old(self)@.users[user_id_idx(old(self)@, target_id)].followers_count < i32::MAX
                && old(self)@.users[user_id_idx(old(self)@, following_id)].following_count
                < i32::MAX ==> (r is Ok
                && final(self)@ == db_with_users(
                old(self)@,
                spec_follow(old(self)@.users, target_id, following_id),
            )),
            has_user_id(old(self)@, target_id) && has_user_id(old(self)@, following_id) && target_id
                != following_id && !spec_is_following(old(self)@, following_id, target_id) && (old(
                self,
            )@.users[user_id_idx(old(self)@, target_id)].followers_count == i32::MAX || old(
                self,
            )@.users[user_id_idx(old(self)@, following_id)].following_count == i32::MAX) ==> (r
                is Err && final(self)@ == old(self)@),
            r is Ok ==> spec_is_following(final(self)@, following_id, target_id),
    {
        let ghost d0 = self@;
        let ti = match self.idx_by_id(target_id) {
            Some(i) => i,
            None => {
                return Err(DbError::NotFound);
            },
        };
        let fi = match self.idx_by_id(following_id) {
            Some(i) => i,
            None => {
                return Err(DbError::NotFound);
            },
        };
        proof {
            lemma_user_id_unique(d0, ti as int, user_id_idx(d0, target_id));
            lemma_user_id_unique(d0, fi as int, user_id_idx(d0, following_id));
        }
        if target_id == following_id {
            return Err(DbError::Conflict);
        }
        if contains_id(&self.users[ti].followers, following_id) {
            return Err(DbError::Conflict);
        }
        if self.users[ti].followers_count == i32::MAX || self.users[fi].following_count == i32::MAX {
            return Err(DbError::Full);
        }
        proof {
            assert(ti != fi);
            assert(user_row_wf(d0.users[ti as int], d0.next_user_id));
            assert(user_row_wf(d0.users[fi as int], d0.next_user_id));
        }
        self.users[ti].followers.push(following_id);
        let tc = self.users[ti].followers_count;
        self.users[ti].followers_count = tc + 1;
        self.users[fi].following.push(target_id);
        let fc = self.users[fi].following_count;
        self.users[fi].following_count = fc + 1;
        proof {
            let d1 = self@;
            assert forall|i: int| 0 <= i < d1.users.len() implies #[trigger] d1.users[i]
                == row_after_follow(d0.users[i], target_id, following_id) by {
                if i != ti as int && i != fi as int {
                    if d0.users[i].id == target_id {
                        lemma_user_id_unique(d0, i, ti as int);
                    }
                    if d0.users[i].id == following_id {
                        lemma_user_id_unique(d0, i, fi as int);
                    }
                }
            }
            assert(d1.users =~= spec_follow(d0.users, target_id, following_id));
            lemma_wf_follow(d0, target_id, following_id, ti as int, fi as int);
            assert(d1.users[ti as int].followers.contains(following_id)) by {
                lemma_push_contains(d0.users[ti as int].followers, following_id, following_id);
            }
            lemma_user_id_unique(d1, ti as int, user_id_idx(d1, target_id));
        }
        Ok(())
    }

    /// Removes the relation that `unfollowing_id` follows `target_id`:
    /// taken out of the target's followers and the unfollower's
    /// following, with both counts decremented. Fails when either account
    /// is missing or when the relation does not hold; a failure changes
    /// nothing.
    pub fn unfollow_user(&mut self, target_id: i32, unfollowing_id: i32) -> (r: Result<
        (),
        DbError,
    >)
        requires
            db_wf(old(self)@),
        ensures
            db_wf(final(self)@),
            !has_user_id(old(self)@, target_id) || !has_user_id(old(self)@, unfollowing_id) ==> (r
                == Result::<(), DbError>::Err(DbError::NotFound) && final(self)@ == old(self)@),
            has_user_id(old(self)@, target_id) && has_user_id(old(self)@, unfollowing_id)
                && !spec_is_following(old(self)@, unfollowing_id, target_id) ==> (r == Result::<
                (),
                DbError,
            >::Err(DbError::Conflict) && final(self)@ == old(self)@),
            has_user_id(old(self)@, target_id) && has_user_id(old(self)@, unfollowing_id)
                && spec_is_following(old(self)@, unfollowing_id, target_id) ==> (r is Ok
                && final(self)@ == db_with_users(
                old(self)@,
                spec_unfollow(old(self)@.users, target_id, unfollowing_id),
            )),
            r is Ok ==> !spec_is_following(final(self)@, unfollowing_id, target_id),
    {
        let ghost d0 = self@;
        let ti = match self.idx_by_id(target_id) {
            Some(i) => i,
            None => {
                return Err(DbError::NotFound);
            },
        };
        let fi = match self.idx_by_id(unfollowing_id) {
            Some(i) => i,
            None => {
                return Err(DbError::NotFound);
            },
        };
        proof {
            lemma_user_id_unique(d0, ti as int, user_id_idx(d0, target_id));
            lemma_user_id_unique(d0, fi as int, user_id_idx(d0, unfollowing_id));
            assert(user_row_wf(d0.users[ti as int], d0.next_user_id));
            assert(user_row_wf(d0.users[fi as int], d0.next_user_id));
        }
        if !contains_id(&self.users[ti].followers, unfollowing_id) {
            return Err(DbError::Conflict);
        }
        proof {
            // the relation is mutual, and it is not a self-relation
            assert(d0.users[ti as int].followers.contains(d0.users[fi as int].id));
            assert(d0.users[fi as int].following.contains(d0.users[ti as int].id));
            assert(ti != fi);
        }
        let removed_t = remove_id_from_vec(&mut self.users[ti].followers, unfollowing_id);
        let tc = self.users[ti].followers_count;
        self.users[ti].followers_count = tc - 1;
        let removed_f = remove_id_from_vec(&mut self.users[fi].following, target_id);
        let fc = self.users[fi].following_count;
        self.users[fi].following_count = fc - 1;
        proof {
            let d1 = self@;
            lemma_remove_id_props(d0.users[ti as int].followers, unfollowing_id);
            lemma_remove_id_props(d0.users[fi as int].following, target_id);
            assert forall|i: int| 0 <= i < d1.users.len() implies #[trigger] d1.users[i]
                == row_after_unfollow(d0.users[i], target_id, unfollowing_id) by {
                if i != ti as int && i != fi as int {
                    if d0.users[i].id == target_id {
                        lemma_user_id_unique(d0, i, ti as int);
                    }
                    if d0.users[i].id == unfollowing_id {
                        lemma_user_id_unique(d0, i, fi as int);
                    }
                }
            }
            assert(d1.users =~= spec_unfollow(d0.users, target_id, unfollowing_id));
            lemma_wf_unfollow(d0, target_id, unfollowing_id, ti as int, fi as int);
            lemma_user_id_unique(d1, ti as int, user_id_idx(d1, target_id));
        }
        Ok(())
    }
}

/// The store stays well-formed when a fresh follow relation is recorded.
proof fn lemma_wf_follow(d0: DbView, t: i32, f: i32, ti: int, fi: int)
    requires
        db_wf(d0),
        0 <= ti < d0.users.len(),
        0 <= fi < d0.users.len(),
        d0.users[ti].id == t,
        d0.users[fi].id == f,
        t != f,
        !d0.users[ti].followers.contains(f),
        d0.users[ti].followers_count < i32::MAX,
        d0.users[fi].following_count < i32::MAX,
    ensures
        db_wf(db_with_users(d0, spec_follow(d0.users, t, f))),
{
    let d1 = db_with_users(d0, spec_follow(d0.users, t, f));
    assert(ti != fi);
    assert(!d0.users[fi].following.contains(t)) by {
        assert(d0.users[ti].followers.contains(d0.users[fi].id) <==> d0.users[fi].following.contains(
            d0.users[ti].id,
        ));
    }
    assert forall|i: int| 0 <= i < d1.users.len() implies user_row_wf(
        #[trigger] d1.users[i],
        d1.next_user_id,
    ) by {
        assert(user_row_wf(d0.users[i], d0.next_user_id));
        assert(d1.users[i] == row_after_follow(d0.users[i], t, f));
        if d0.users[i].id == t {
            lemma_user_id_unique(d0, i, ti);
            let fl = d0.users[i].followers;
            assert(user_row_wf(d0.users[fi], d0.next_user_id));
            assert(0 < f < d0.next_user_id);
            assert forall|a: int, b: int| 0 <= a < b < fl.push(f).len() implies fl.push(f)[a]
                != fl.push(f)[b] by {
                if b < fl.len() {
                } else {
                    assert(fl.push(f)[b] == f);
                    assert(fl.push(f)[a] == fl[a]);
                }
            }
            lemma_push_contains(fl, f, t);
        } else if d0.users[i].id == f {
            lemma_user_id_unique(d0, i, fi);
            let fl = d0.users[i].following;
            assert(user_row_wf(d0.users[ti], d0.next_user_id));
            assert(0 < t < d0.next_user_id);
            assert(!fl.contains(t));
            assert forall|a: int, b: int| 0 <= a < b < fl.push(t).len() implies fl.push(t)[a]
                != fl.push(t)[b] by {
                if b < fl.len() {
                } else {
                    assert(fl.push(t)[b] == t);
                    assert(fl.push(t)[a] == fl[a]);
                }
            }
            lemma_push_contains(fl, t, f);
        }
    }
    assert forall|i: int, j: int|
        #![trigger d1.users[i], d1.users[j]]
        0 <= i < j < d1.users.len() implies d1.users[i].id != d1.users[j].id && d1.users[i].user_at
        != d1.users[j].user_at && d1.users[i].email != d1.users[j].email by {
        assert(d0.users[i].id != d0.users[j].id);
        assert(d1.users[i] == row_after_follow(d0.users[i], t, f));
        assert(d1.users[j] == row_after_follow(d0.users[j], t, f));
    }
    assert forall|i: int, k: int|
        0 <= i < d1.users.len() && 0 <= k < d1.users[i].followers.len() implies has_user_id(
        d1,
        #[trigger] d1.users[i].followers[k],
    ) by {
        assert(d1.users[i] == row_after_follow(d0.users[i], t, f));
        let y = d1.users[i].followers[k];
        assert(has_user_id(d0, y)) by {
            if d0.users[i].id == t && k == d0.users[i].followers.len() {
                assert(d1.users[i].followers[k] == f);
                assert((#[trigger] d0.users[fi]).id == f);
            } else {
                assert(d1.users[i].followers[k] == d0.users[i].followers[k]);
                assert(has_user_id(d0, d0.users[i].followers[k]));
            }
        }
        let j = choose|j: int| 0 <= j < d0.users.len() && (#[trigger] d0.users[j]).id == y;
        assert(d1.users[j] == row_after_follow(d0.users[j], t, f));
        assert(d1.users[j].id == y);
    }
    assert forall|i: int, k: int|
        0 <= i < d1.users.len() && 0 <= k < d1.users[i].following.len() implies has_user_id(
        d1,
        #[trigger] d1.users[i].following[k],
    ) by {
        assert(d1.users[i] == row_after_follow(d0.users[i], t, f));
        let y = d1.users[i].following[k];
        assert(has_user_id(d0, y)) by {
            if d0.users[i].id == f && k == d0.users[i].following.len() {
                assert(d1.users[i].following[k] == t);
                assert((#[trigger] d0.users[ti]).id == t);
            } else {
                assert(d1.users[i].following[k] == d0.users[i].following[k]);
                assert(has_user_id(d0, d0.users[i].following[k]));
            }
        }
        let j = choose|j: int| 0 <= j < d0.users.len() && (#[trigger] d0.users[j]).id == y;
        assert(d1.users[j] == row_after_follow(d0.users[j], t, f));
        assert(d1.users[j].id == y);
    }
    assert forall|i: int, j: int|
        #![trigger d1.users[i].followers.contains(d1.users[j].id)]
        #![trigger d1.users[j].following.contains(d1.users[i].id)]
        0 <= i < d1.users.len() && 0 <= j < d1.users.len() implies (d1.users[i].followers.contains(
        d1.users[j].id,
    ) <==> d1.users[j].following.contains(d1.users[i].id)) by {
        assert(d1.users[i] == row_after_follow(d0.users[i], t, f));
        assert(d1.users[j] == row_after_follow(d0.users[j], t, f));
        assert(d0.users[i].followers.contains(d0.users[j].id) <==> d0.users[j].following.contains(
            d0.users[i].id,
        ));
        lemma_push_contains(d0.users[i].followers, f, d0.users[j].id);
        lemma_push_contains(d0.users[i].following, t, d0.users[j].id);
        lemma_push_contains(d0.users[j].following, t, d0.users[i].id);
        lemma_push_contains(d0.users[j].followers, f, d0.users[i].id);
        if d0.users[i].id == t {
            lemma_user_id_unique(d0, i, ti);
        }
        if d0.users[i].id == f {
            lemma_user_id_unique(d0, i, fi);
        }
        if d0.users[j].id == t {
            lemma_user_id_unique(d0, j, ti);
        }
        if d0.users[j].id == f {
            lemma_user_id_unique(d0, j, fi);
        }
    }
    assert forall|i: int| 0 <= i < d1.posts.len() implies post_row_wf(
        #[trigger] d1.posts[i],
        d1.next_post_id,
        d1.next_user_id,
    ) by {
        assert(post_row_wf(d0.posts[i], d0.next_post_id, d0.next_user_id));
    }
}

/// The store stays well-formed when a held follow relation is removed.
proof fn lemma_wf_unfollow(d0: DbView, t: i32, f: i32, ti: int, fi: int)
    requires
        db_wf(d0),
        0 <= ti < d0.users.len(),
        0 <= fi < d0.users.len(),
        d0.users[ti].id == t,
        d0.users[fi].id == f,
        ti != fi,
        d0.users[ti].followers.contains(f),
    ensures
        db_wf(db_with_users(d0, spec_unfollow(d0.users, t, f))),
{
    let d1 = db_with_users(d0, spec_unfollow(d0.users, t, f));
    assert(t != f);
    assert(d0.users[fi].following.contains(t)) by {
        assert(d0.users[ti].followers.contains(d0.users[fi].id) <==> d0.users[fi].following.contains(
            d0.users[ti].id,
        ));
    }
    assert forall|i: int| 0 <= i < d1.users.len() implies user_row_wf(
        #[trigger] d1.users[i],
        d1.next_user_id,
    ) by {
        assert(user_row_wf(d0.users[i], d0.next_user_id));
        assert(d1.users[i] == row_after_unfollow(d0.users[i], t, f));
        if d0.users[i].id == t {
            lemma_user_id_unique(d0, i, ti);
            lemma_remove_id_props(d0.users[i].followers, f);
        } else if d0.users[i].id == f {
            lemma_user_id_unique(d0, i, fi);
            lemma_remove_id_props(d0.users[i].following, t);
        }
    }
    assert forall|i: int, j: int|
        #![trigger d1.users[i], d1.users[j]]
        0 <= i < j < d1.users.len() implies d1.users[i].id != d1.users[j].id && d1.users[i].user_at
        != d1.users[j].user_at && d1.users[i].email != d1.users[j].email by {
        assert(d0.users[i].id != d0.users[j].id);
        assert(d1.users[i] == row_after_unfollow(d0.users[i], t, f));
        assert(d1.users[j] == row_after_unfollow(d0.users[j], t, f));
    }
    assert forall|i: int, k: int|
        0 <= i < d1.users.len() && 0 <= k < d1.users[i].followers.len() implies has_user_id(
        d1,
        #[trigger] d1.users[i].followers[k],
    ) by {
        assert(d1.users[i] == row_after_unfollow(d0.users[i], t, f));
        assert(user_row_wf(d0.users[i], d0.next_user_id));
        let y = d1.users[i].followers[k];
        assert(has_user_id(d0, y)) by {
            if d0.users[i].id == t {
                lemma_remove_id_props(d0.users[i].followers, f);
                assert(d0.users[i].followers.contains(y));
                let k0 = choose|k0: int|
                    0 <= k0 < d0.users[i].followers.len() && d0.users[i].followers[k0] == y;
                assert(has_user_id(d0, d0.users[i].followers[k0]));
            } else {
                assert(d1.users[i].followers == d0.users[i].followers);
                assert(has_user_id(d0, d0.users[i].followers[k]));
            }
        }
        let j = choose|j: int| 0 <= j < d0.users.len() && (#[trigger] d0.users[j]).id == y;
        assert(d1.users[j] == row_after_unfollow(d0.users[j], t, f));
        assert(d1.users[j].id == y);
    }
    assert forall|i: int, k: int|
        0 <= i < d1.users.len() && 0 <= k < d1.users[i].following.len() implies has_user_id(
        d1,
        #[trigger] d1.users[i].following[k],
    ) by {
        assert(d1.users[i] == row_after_unfollow(d0.users[i], t, f));
        assert(user_row_wf(d0.users[i], d0.next_user_id));
        let y = d1.users[i].following[k];
        assert(has_user_id(d0, y)) by {
            if d0.users[i].id == f {
                lemma_remove_id_props(d0.users[i].following, t);
                assert(d0.users[i].following.contains(y));
                let k0 = choose|k0: int|
                    0 <= k0 < d0.users[i].following.len() && d0.users[i].following[k0] == y;
                assert(has_user_id(d0, d0.users[i].following[k0]));
            } else {
                assert(d1.users[i].following == d0.users[i].following);
                assert(has_user_id(d0, d0.users[i].following[k]));
            }
        }
        let j = choose|j: int| 0 <= j < d0.users.len() && (#[trigger] d0.users[j]).id == y;
        assert(d1.users[j] == row_after_unfollow(d0.users[j], t, f));
        assert(d1.users[j].id == y);
    }
    assert forall|i: int, j: int|
        #![trigger d1.users[i].followers.contains(d1.users[j].id)]
        #![trigger d1.users[j].following.contains(d1.users[i].id)]
        0 <= i < d1.users.len() && 0 <= j < d1.users.len() implies (d1.users[i].followers.contains(
        d1.users[j].id,
    ) <==> d1.users[j].following.contains(d1.users[i].id)) by {
        assert(d1.users[i] == row_after_unfollow(d0.users[i], t, f));
        assert(d1.users[j] == row_after_unfollow(d0.users[j], t, f));
        assert(user_row_wf(d0.users[i], d0.next_user_id));
        assert(user_row_wf(d0.users[j], d0.next_user_id));
        assert(d0.users[i].followers.contains(d0.users[j].id) <==> d0.users[j].following.contains(
            d0.users[i].id,
        ));
        lemma_remove_id_props(d0.users[i].followers, f);
        lemma_remove_id_props(d0.users[i].following, t);
        lemma_remove_id_props(d0.users[j].followers, f);
        lemma_remove_id_props(d0.users[j].following, t);
        if d0.users[i].id == t {
            lemma_user_id_unique(d0, i, ti);
        }
        if d0.users[i].id == f {
            lemma_user_id_unique(d0, i, fi);
        }
        if d0.users[j].id == t {
            lemma_user_id_unique(d0, j, ti);
        }
        if d0.users[j].id == f {
            lemma_user_id_unique(d0, j, fi);
        }
    }
    assert forall|i: int| 0 <= i < d1.posts.len() implies post_row_wf(
        #[trigger] d1.posts[i],
        d1.next_post_id,
        d1.next_user_id,
    ) by {
        assert(post_row_wf(d0.posts[i], d0.next_post_id, d0.next_user_id));
    }
}

/// Removes one occurrence of `id` from the list, reporting whether it was
/// there.
pub fn remove_id_from_vec(v: &mut Vec<i32>, id: i32) -> (removed: bool)
    requires
        old(v)@.no_duplicates(),
    ensures
        final(v)@ == remove_id(old(v)@, id),
        removed == old(v)@.contains(id),
{
    let n = v.len();
    for i in 0..n
        invariant
            v@ == old(v)@,
            v@.no_duplicates(),
            n == v@.len(),
            forall|j: int| 0 <= j < i ==> v@[j] != id,
    {
        if v[i] == id {
            let ghost v0 = v@;
            v.remove(i);
            proof {
                assert(v0[i as int] == id);
                assert(v0.contains(id));
                let k = v0.index_of(id);
                assert(0 <= k < v0.len() && v0[k] == id);
                if k < i as int {
                    assert(v0[k] != v0[i as int]);
                }
                if k > i as int {
                    assert(v0[i as int] != v0[k]);
                }
                assert(k == i as int);
            }
            return true;
        }
    }
    false
}



// ---------------------------------------------------------------------------
// Account deletion
// ---------------------------------------------------------------------------

/// The relationship snapshot of one account: the two id lists as the
/// store holds them, read before a deletion unlinks the account.
pub struct FollowingDBData {
    pub followers: Option<Vec<i32>>,
    pub following: Option<Vec<i32>>,
}

impl Database {
    /// The relationship snapshot of the account with this email.
    pub fn following_db_data(&self, email: &str) -> (r: Result<FollowingDBData, DbError>)
        requires
            db_wf(self@),
        ensures
            r is Ok <==> email_taken(self@, email@),
            r matches Ok(f) ==> ({
                let u = self@.users[email_idx(self@, email@)];
                (f.followers matches Some(l) && l@ == u.followers) && (f.following matches Some(l)
                    && l@ == u.following)
            }),
    {
        match self.idx_by_email(email) {
            Some(i) => {
                proof {
                    lemma_email_unique(self@, i as int, email_idx(self@, email@));
                }
                Ok(
                    FollowingDBData {
                        followers: Some(self.users[i].followers.clone()),
                        following: Some(self.users[i].following.clone()),
                    },
                )
            },
            None => Err(DbError::NotFound),
        }
    }
}

/// One account row after every relation with the departing id is removed.
pub open spec fn row_after_strip(u: UserRowView, id: i32) -> UserRowView {
    UserRowView {
        followers: remove_id(u.followers, id),
        followers_count: ((u.followers_count - (if u.followers.contains(id) {
            1int
        } else {
            0int
        })) as i32),
        following: remove_id(u.following, id),
        following_count: ((u.following_count - (if u.following.contains(id) {
            1int
        } else {
            0int
        })) as i32),
        ..u
    }
}

/// The store after the account with this email is deleted: its row is
/// gone and its id is removed, with the counts adjusted, from every
/// remaining relationship list.
pub open spec fn spec_delete_user(d: DbView, em: Seq<char>) -> DbView {
    let idx = email_idx(d, em);
    let uid = d.users[idx].id;
    DbView {
        users: d.users.remove(idx).map_values(|u: UserRowView| row_after_strip(u, uid)),
        posts: d.posts,
        next_user_id: d.next_user_id,
        next_post_id: d.next_post_id,
    }
}

/// The store stays well-formed when an account is deleted and unlinked.
proof fn lemma_wf_delete(d0: DbView, em: Seq<char>)
    requires
        db_wf(d0),
        email_taken(d0, em),
    ensures
        db_wf(spec_delete_user(d0, em)),
{
    let idx = email_idx(d0, em);
    assert(0 <= idx < d0.users.len());
    let uid = d0.users[idx].id;
    let d1 = spec_delete_user(d0, em);
    let mid = d0.users.remove(idx);
    assert(mid =~= d0.users.subrange(0, idx) + d0.users.subrange(idx + 1, d0.users.len() as int));
    assert forall|k: int| 0 <= k < mid.len() implies #[trigger] mid[k] == d0.users[if k < idx {
        k
    } else {
        k + 1
    }] by {}
    assert forall|k: int| 0 <= k < mid.len() implies mid[k].id != uid by {
        let o: int = if k < idx { k } else { k + 1 };
        if d0.users[o].id == uid {
            lemma_user_id_unique(d0, o, idx);
        }
    }
    assert forall|i: int| 0 <= i < d1.users.len() implies user_row_wf(
        #[trigger] d1.users[i],
        d1.next_user_id,
    ) by {
        let o: int = if i < idx { i } else { i + 1 };
        assert(mid[i] == d0.users[o]);
        assert(user_row_wf(d0.users[o], d0.next_user_id));
        assert(d1.users[i] == row_after_strip(mid[i], uid));
        lemma_remove_id_props(mid[i].followers, uid);
        lemma_remove_id_props(mid[i].following, uid);
    }
    assert forall|i: int, j: int|
        #![trigger d1.users[i], d1.users[j]]
        0 <= i < j < d1.users.len() implies d1.users[i].id != d1.users[j].id && d1.users[i].user_at
        != d1.users[j].user_at && d1.users[i].email != d1.users[j].email by {
        let oi: int = if i < idx { i } else { i + 1 };
        let oj: int = if j < idx { j } else { j + 1 };
        assert(d1.users[i] == row_after_strip(mid[i], uid));
        assert(d1.users[j] == row_after_strip(mid[j], uid));
        assert(d0.users[oi].id != d0.users[oj].id);
    }
    assert forall|i: int, k: int|
        0 <= i < d1.users.len() && 0 <= k < d1.users[i].followers.len() implies has_user_id(
        d1,
        #[trigger] d1.users[i].followers[k],
    ) by {
        let oi: int = if i < idx { i } else { i + 1 };
        assert(d1.users[i] == row_after_strip(mid[i], uid));
        assert(user_row_wf(d0.users[oi], d0.next_user_id));
        lemma_remove_id_props(mid[i].followers, uid);
        let y = d1.users[i].followers[k];
        assert(mid[i].followers.contains(y));
        assert(y != uid);
        let k0 = choose|k0: int| 0 <= k0 < mid[i].followers.len() && mid[i].followers[k0] == y;
        assert(has_user_id(d0, d0.users[oi].followers[k0]));
        let j0 = choose|j0: int| 0 <= j0 < d0.users.len() && (#[trigger] d0.users[j0]).id == y;
        assert(j0 != idx);
        let j1: int = if j0 < idx { j0 } else { j0 - 1 };
        assert(mid[j1] == d0.users[j0]);
        assert(d1.users[j1] == row_after_strip(mid[j1], uid));
        assert(d1.users[j1].id == y);
    }
    assert forall|i: int, k: int|
        0 <= i < d1.users.len() && 0 <= k < d1.users[i].following.len() implies has_user_id(
        d1,
        #[trigger] d1.users[i].following[k],
    ) by {
        let oi: int = if i < idx { i } else { i + 1 };
        assert(d1.users[i] == row_after_strip(mid[i], uid));
        assert(user_row_wf(d0.users[oi], d0.next_user_id));
        lemma_remove_id_props(mid[i].following, uid);
        let y = d1.users[i].following[k];
        assert(mid[i].following.contains(y));
        assert(y != uid);
        let k0 = choose|k0: int| 0 <= k0 < mid[i].following.len() && mid[i].following[k0] == y;
        assert(has_user_id(d0, d0.users[oi].following[k0]));
        let j0 = choose|j0: int| 0 <= j0 < d0.users.len() && (#[trigger] d0.users[j0]).id == y;
        assert(j0 != idx);
        let j1: int = if j0 < idx { j0 } else { j0 - 1 };
        assert(mid[j1] == d0.users[j0]);
        assert(d1.users[j1] == row_after_strip(mid[j1], uid));
        assert(d1.users[j1].id == y);
    }
    assert forall|i: int, j: int|
        #![trigger d1.users[i].followers.contains(d1.users[j].id)]
        #![trigger d1.users[j].following.contains(d1.users[i].id)]
        0 <= i < d1.users.len() && 0 <= j < d1.users.len() implies (d1.users[i].followers.contains(
        d1.users[j].id,
    ) <==> d1.users[j].following.contains(d1.users[i].id)) by {
        let oi: int = if i < idx { i } else { i + 1 };
        let oj: int = if j < idx { j } else { j + 1 };
        assert(d1.users[i] == row_after_strip(mid[i], uid));
        assert(d1.users[j] == row_after_strip(mid[j], uid));
        assert(user_row_wf(d0.users[oi], d0.next_user_id));
        assert(user_row_wf(d0.users[oj], d0.next_user_id));
        lemma_remove_id_props(mid[i].followers, uid);
        lemma_remove_id_props(mid[j].following, uid);
        assert(mid[i].id != uid && mid[j].id != uid);
        assert(d0.users[oi].followers.contains(d0.users[oj].id) <==> d0.users[oj].following.contains(
            d0.users[oi].id,
        ));
    }
    assert forall|i: int| 0 <= i < d1.posts.len() implies post_row_wf(
        #[trigger] d1.posts[i],
        d1.next_post_id,
        d1.next_user_id,
    ) by {
        assert(post_row_wf(d0.posts[i], d0.next_post_id, d0.next_user_id));
    }
}

impl Database {
    /// Deletes the account with this email: every follow relation it
    /// takes part in is removed first, with the counts adjusted, then the
    /// row itself. Fails only when the email names no account, changing
    /// nothing.
    pub fn delete_user(&mut self, email: &str) -> (r: Result<(), DbError>)
        requires
            db_wf(old(self)@),
        ensures
            db_wf(final(self)@),
            r is Ok <==> email_taken(old(self)@, email@),
            r is Ok ==> final(self)@ == spec_delete_user(old(self)@, email@),
            r is Err ==> r == Result::<(), DbError>::Err(DbError::NotFound) && final(self)@ == old(self)@,
    {
        let ghost d0 = self@;
        let idx = match self.idx_by_email(email) {
            Some(i) => i,
            None => {
                return Err(DbError::NotFound);
            },
        };
        proof {
            lemma_email_unique(d0, idx as int, email_idx(d0, email@));
        }
        let uid = self.users[idx].id;
        let ghost mid = d0.users.remove(idx as int);
        self.users.remove(idx);
        proof {
            assert(self@.users =~= mid) by {
                assert(self.users@ =~= old(self).users@.remove(idx as int));
                assert(mid =~= d0.users.subrange(0, idx as int) + d0.users.subrange(
                    idx + 1,
                    d0.users.len() as int,
                ));
                assert forall|k: int| 0 <= k < mid.len() implies self@.users[k] == mid[k] by {
                    assert(self.users@[k] == (if k < idx as int {
                        old(self).users@[k]
                    } else {
                        old(self).users@[k + 1]
                    }));
                }
            }
            assert forall|k: int| 0 <= k < mid.len() implies #[trigger] mid[k] == d0.users[
            if k < idx as int {
                k
            } else {
                k + 1
            }] by {}
            assert forall|k: int| 0 <= k < mid.len() implies user_row_wf(
                #[trigger] mid[k],
                d0.next_user_id,
            ) by {
                let o: int = if k < idx as int { k } else { k + 1 };
                assert(user_row_wf(d0.users[o], d0.next_user_id));
            }
        }
        let ghost posts0 = self.posts@;
        let mut stripped: Vec<UserRow> = Vec::new();
        while self.users.len() > 0
            invariant
                stripped@.len() + self.users@.len() == mid.len(),
                forall|k: int|
                    0 <= k < stripped@.len() ==> (#[trigger] stripped@[k])@ == row_after_strip(
                        mid[k],
                        uid,
                    ),
                forall|k: int|
                    0 <= k < self.users@.len() ==> (#[trigger] self.users@[k])@ == mid[stripped@.len()
                        + k],
                forall|k: int| 0 <= k < mid.len() ==> user_row_wf(#[trigger] mid[k], d0.next_user_id),
                self.posts@ == posts0,
                self.next_user_id == d0.next_user_id,
                self.next_post_id == d0.next_post_id,
            decreases self.users.len(),
        {
            let ghost kk = stripped@.len() as int;
            let ghost users_before = self.users@;
            let mut row = self.users.remove(0);
            proof {
                assert(users_before.remove(0) =~= users_before.subrange(
                    1,
                    users_before.len() as int,
                ));
                assert forall|k: int| 0 <= k < self.users@.len() implies (#[trigger] self.users@[k])@
                    == mid[kk + 1 + k] by {
                    assert(self.users@[k] == users_before[k + 1]);
                }
                assert(row@ == mid[kk]);
                assert(user_row_wf(mid[kk], d0.next_user_id));
            }
            let had_follower = remove_id_from_vec(&mut row.followers, uid);
            if had_follower {
                row.followers_count = row.followers_count - 1;
            }
            let had_following = remove_id_from_vec(&mut row.following, uid);
            if had_following {
                row.following_count = row.following_count - 1;
            }
            proof {
                lemma_remove_id_props(mid[kk].followers, uid);
                lemma_remove_id_props(mid[kk].following, uid);
                assert(row@ == row_after_strip(mid[kk], uid));
            }
            stripped.push(row);
        }
        self.users = stripped;
        proof {
            assert(self@.users =~= mid.map_values(|u: UserRowView| row_after_strip(u, uid)));
            assert(self@ == spec_delete_user(d0, email@));
            lemma_wf_delete(d0, email@);
        }
        Ok(())
    }
}

// ---------------------------------------------------------------------------
// Laws of registration and of the follow toggle
// ---------------------------------------------------------------------------

/// Registering twice conflicts on the second attempt: once an account
/// with a handle is stored, that handle is taken in every later state
/// that still holds it, and likewise for the email. Together with the
/// contract of `make_user` — a taken handle is answered with the 400
/// handle conflict, a taken email with the 400 email conflict, and the
/// store left unchanged — a second registration of the same handle or
/// email fails.
pub proof fn lemma_duplicate_registration(
    d: DbView,
    first: user::UserFormView,
    second: user::UserFormView,
)
    ensures
        second.user_at == first.user_at ==> user_at_taken(spec_make_user(d, first), second.user_at),
        second.email == first.email ==> email_taken(spec_make_user(d, first), second.email),
{
    let d1 = spec_make_user(d, first);
    assert(d1.users[d.users.len() as int] == new_user_row(first, d.next_user_id));
}

/// The follow toggle is undone exactly by its inverse: when the relation
/// does not yet hold, recording it and then removing it returns every
/// account row — both id lists and both counts of every user — to its
/// previous state. With `user_row_wf`, the counts again equal the list
/// lengths.
pub proof fn lemma_follow_then_unfollow(users: Seq<UserRowView>, t: i32, f: i32)
    requires
        t != f,
        forall|i: int|
            0 <= i < users.len() ==> ((#[trigger] users[i]).id == t
                ==> !users[i].followers.contains(f) && users[i].followers_count < i32::MAX),
        forall|i: int|
            0 <= i < users.len() ==> ((#[trigger] users[i]).id == f
                ==> !users[i].following.contains(t) && users[i].following_count < i32::MAX),
    ensures
        spec_unfollow(spec_follow(users, t, f), t, f) == users,
{
    assert forall|i: int| 0 <= i < users.len() implies #[trigger] spec_unfollow(
        spec_follow(users, t, f),
        t,
        f,
    )[i] == users[i] by {
        let u = users[i];
        assert(spec_follow(users, t, f)[i] == row_after_follow(u, t, f));
        if u.id == t {
            lemma_push_then_remove(u.followers, f);
        } else if u.id == f {
            lemma_push_then_remove(u.following, t);
        }
    }
    assert(spec_unfollow(spec_follow(users, t, f), t, f) =~= users);
}



// ---------------------------------------------------------------------------
// Posts, comments and likes
// ---------------------------------------------------------------------------

/// A post row as `get_posts` hands it out.
pub struct Post {
    pub text: Option<String>,
    pub image: Option<String>,
    pub owner_id: i32,
    pub likescount: i32,
    pub unix_time: i64,
}

/// Which rows a post listing selects.
#[derive(Clone, Copy)]
pub enum PostFilter {
    /// Top-level posts of everyone.
    TopLevel,
    /// Top-level posts of one owner.
    ByOwner(i32),
    /// The comments of one post.
    CommentsOf(i32),
}

/// Whether a row is selected by a filter.
pub open spec fn post_matches(f: PostFilter, p: PostRowView) -> bool {
    match f {
        PostFilter::TopLevel => p.parent_id is None,
        PostFilter::ByOwner(o) => p.parent_id is None && p.owner_id == o,
        PostFilter::CommentsOf(pid) => p.parent_id == Some(pid),
    }
}

/// A listing order: indices of exactly the rows the filter selects, each
/// once, newest first.
pub open spec fn post_order_ok(d: DbView, f: PostFilter, ord: Seq<int>) -> bool {
    &&& forall|k: int| 0 <= k < ord.len() ==> 0 <= #[trigger] ord[k] < d.posts.len()
    &&& forall|k: int| 0 <= k < ord.len() ==> post_matches(f, d.posts[#[trigger] ord[k]])
    &&& ord.no_duplicates()
    &&& forall|p: int| 0 <= p < d.posts.len() && post_matches(f, #[trigger] d.posts[p]) ==> ord.contains(p)
    &&& forall|a: int, b: int|
        0 <= a < b < ord.len() ==> d.posts[#[trigger] ord[a]].unix_time >= d.posts[
            #[trigger] ord[b]
        ].unix_time
}

/// The index sequence of a vector of indices.
pub open spec fn idxs_view(v: Seq<usize>) -> Seq<int> {
    v.map_values(|x: usize| x as int)
}

/// The stored row with this post id (meaningful when present).
pub open spec fn post_idx(d: DbView, post_id: i32) -> int {
    choose|i: int| 0 <= i < d.posts.len() && (#[trigger] d.posts[i]).post_id == post_id
}

/// Some stored row has this post id.
pub open spec fn has_post_id(d: DbView, post_id: i32) -> bool {
    exists|i: int| 0 <= i < d.posts.len() && (#[trigger] d.posts[i]).post_id == post_id
}

pub proof fn lemma_post_id_unique(d: DbView, i: int, j: int)
    requires
        db_wf(d),
        0 <= i < d.posts.len(),
        0 <= j < d.posts.len(),
        d.posts[i].post_id == d.posts[j].post_id,
    ensures
        i == j,
{
    if i < j {
        assert(d.posts[i].post_id != d.posts[j].post_id);
    } else if j < i {
        assert(d.posts[j].post_id != d.posts[i].post_id);
    }
}

impl Database {
    /// Index of the row with this post id.
    pub(crate) fn idx_by_post_id(&self, post_id: i32) -> (r: Option<usize>)
        requires
            db_wf(self@),
        ensures
            match r {
                Some(i) => i < self@.posts.len() && self@.posts[i as int].post_id == post_id,
                None => !has_post_id(self@, post_id),
            },
    {
        let n = self.posts.len();
        for i in 0..n
            invariant
                n == self@.posts.len(),
                forall|j: int| 0 <= j < i ==> (#[trigger] self@.posts[j]).post_id != post_id,
        {
            if self.posts[i].post_id == post_id {
                return Some(i);
            }
        }
        None
    }

    /// The indices of the rows a filter selects, newest first; ties keep
    /// no particular order among themselves.
    #[verifier::rlimit(60)]
    pub fn posts_sorted_desc(&self, filter: PostFilter) -> (idxs: Vec<usize>)
        requires
            db_wf(self@),
        ensures
            post_order_ok(self@, filter, idxs_view(idxs@)),
    {
        let mut idxs: Vec<usize> = Vec::new();
        let n = self.posts.len();
        for p in 0..n
            invariant
                n == self@.posts.len(),
                forall|k: int| 0 <= k < idxs@.len() ==> #[trigger] idxs@[k] < p,
                forall|k: int|
                    0 <= k < idxs@.len() ==> post_matches(
                        filter,
                        self@.posts[#[trigger] idxs@[k] as int],
                    ),
                idxs_view(idxs@).no_duplicates(),
                forall|q: int|
                    0 <= q < p && post_matches(filter, #[trigger] self@.posts[q]) ==> idxs_view(
                        idxs@,
                    ).contains(q),
                forall|a: int, b: int|
                    0 <= a < b < idxs@.len() ==> self@.posts[#[trigger] idxs@[a] as int].unix_time
                        >= self@.posts[#[trigger] idxs@[b] as int].unix_time,
        {
            let row_matches = match filter {
                PostFilter::TopLevel => self.posts[p].parent_id.is_none(),
                PostFilter::ByOwner(o) => self.posts[p].parent_id.is_none() && self.posts[p].owner_id
                    == o,
                PostFilter::CommentsOf(pid) => match self.posts[p].parent_id {
                    Some(q) => q == pid,
                    None => false,
                },
            };
            if row_matches {
                let key = self.posts[p].unix_time;
                let ghost idxs0 = idxs@;
                let m = idxs.len();
                // the first position whose row is strictly older than the new one
                let mut pos: usize = 0;
                while pos < m && self.posts[idxs[pos]].unix_time >= key
                    invariant
                        m == idxs@.len(),
                        idxs@ == idxs0,
                        pos <= m,
                        n == self@.posts.len(),
                        key == self@.posts[p as int].unix_time,
                        p < n,
                        forall|k: int| 0 <= k < idxs@.len() ==> #[trigger] idxs@[k] < n,
                        forall|k: int|
                            0 <= k < pos ==> self@.posts[#[trigger] idxs@[k] as int].unix_time
                                >= key,
                    decreases m - pos,
                {
                    pos = pos + 1;
                }
                idxs.insert(pos, p);
                proof {
                    let iv = idxs_view(idxs@);
                    let iv0 = idxs_view(idxs0);
                    assert(idxs@ =~= idxs0.insert(pos as int, p));
                    assert forall|k: int| 0 <= k < iv.len() implies #[trigger] iv[k] == (if k
                        < pos as int {
                        iv0[k]
                    } else if k == pos as int {
                        p as int
                    } else {
                        iv0[k - 1]
                    }) by {
                        assert(idxs@[k] == (if k < pos as int {
                            idxs0[k]
                        } else if k == pos as int {
                            p
                        } else {
                            idxs0[k - 1]
                        }));
                    }
                    assert forall|a: int, b: int| 0 <= a < b < iv.len() implies self@.posts[
                        #[trigger] idxs@[a] as int
                    ].unix_time >= self@.posts[#[trigger] idxs@[b] as int].unix_time by {
                        if a < pos as int && b == pos as int {
                            assert(self@.posts[idxs0[a] as int].unix_time >= key);
                        } else if a == pos as int && b > pos as int {
                            assert(self@.posts[idxs0[b - 1] as int].unix_time < key);
                        }
                    }
                    assert forall|a: int, b: int|
                        0 <= a < iv.len() && 0 <= b < iv.len() && a != b implies iv[a] != iv[b] by {
                        let a0: int = if a < pos as int {
                            a
                        } else {
                            a - 1
                        };
                        let b0: int = if b < pos as int {
                            b
                        } else {
                            b - 1
                        };
                        if a == pos as int {
                            assert(iv[b] < p as int);
                        } else if b == pos as int {
                            assert(iv[a] < p as int);
                        } else {
                            assert(iv[a] == iv0[a0] && iv[b] == iv0[b0]);
                        }
                    }
                    assert forall|q: int|
                        0 <= q < p + 1 && post_matches(filter, #[trigger] self@.posts[q]) implies
                        iv.contains(q) by {
                        if q == p as int {
                            assert(iv[pos as int] == p as int);
                        } else {
                            assert(iv0.contains(q));
                            let k = choose|k: int| 0 <= k < iv0.len() && iv0[k] == q;
                            if k < pos as int {
                                assert(iv[k] == q);
                            } else {
                                assert(iv[k + 1] == q);
                            }
                        }
                    }
                }
            }
        }
        idxs
    }
}



/// A store that keeps its users and changes only its posts stays
/// well-formed when the changed posts are themselves well-formed and
/// their ids distinct.
proof fn lemma_wf_posts_change(d0: DbView, d1: DbView)
    requires
        db_wf(d0),
        d1.users == d0.users,
        d1.next_user_id == d0.next_user_id,
        0 < d1.next_post_id,
        forall|i: int|
            0 <= i < d1.posts.len() ==> post_row_wf(#[trigger] d1.posts[i], d1.next_post_id, d1.next_user_id),
        forall|i: int, j: int|
            #![trigger d1.posts[i], d1.posts[j]]
            0 <= i < j < d1.posts.len() ==> d1.posts[i].post_id != d1.posts[j].post_id,
    ensures
        db_wf(d1),
{
    assert forall|i: int, k: int|
        0 <= i < d1.users.len() && 0 <= k < d1.users[i].followers.len() implies has_user_id(
        d1,
        #[trigger] d1.users[i].followers[k],
    ) by {
        assert(has_user_id(d0, d0.users[i].followers[k]));
        let j = choose|j: int| 0 <= j < d0.users.len() && (#[trigger] d0.users[j]).id
            == d0.users[i].followers[k];
        assert((#[trigger] d1.users[j]).id == d1.users[i].followers[k]);
    }
    assert forall|i: int, k: int|
        0 <= i < d1.users.len() && 0 <= k < d1.users[i].following.len() implies has_user_id(
        d1,
        #[trigger] d1.users[i].following[k],
    ) by {
        assert(has_user_id(d0, d0.users[i].following[k]));
        let j = choose|j: int| 0 <= j < d0.users.len() && (#[trigger] d0.users[j]).id
            == d0.users[i].following[k];
        assert((#[trigger] d1.users[j]).id == d1.users[i].following[k]);
    }
}

/// A fresh post or comment row.
pub open spec fn new_post_row(
    owner: i32,
    text: Option<Seq<char>>,
    image: Option<Seq<char>>,
    unix_time: i64,
    parent: Option<i32>,
    pid: i32,
) -> PostRowView {
    PostRowView {
        post_id: pid,
        owner_id: owner,
        text: text,
        image: image,
        likes: Seq::empty(),
        likes_count: 0,
        comments_count: 0,
        unix_time: unix_time,
        parent_id: parent,
    }
}

/// The store after a top-level post is published.
pub open spec fn spec_add_post(
    d: DbView,
    owner: i32,
    text: Seq<char>,
    image: Option<Seq<char>>,
    unix_time: i64,
) -> DbView {
    DbView {
        users: d.users,
        posts: d.posts.push(new_post_row(owner, Some(text), image, unix_time, None, d.next_post_id)),
        next_user_id: d.next_user_id,
        next_post_id: (d.next_post_id + 1) as i32,
    }
}

/// The store after a comment is added under a post: the parent's comment
/// count is up one and the comment row is appended.
pub open spec fn spec_add_comment(
    d: DbView,
    owner: i32,
    text: Seq<char>,
    image: Option<Seq<char>>,
    unix_time: i64,
    owner_post_id: i32,
) -> DbView {
    let pidx = post_idx(d, owner_post_id);
    let parent = d.posts[pidx];
    DbView {
        users: d.users,
        posts: d.posts.update(
            pidx,
            PostRowView { comments_count: (parent.comments_count + 1) as i32, ..parent },
        ).push(
            new_post_row(owner, Some(text), image, unix_time, Some(owner_post_id), d.next_post_id),
        ),
        next_user_id: d.next_user_id,
        next_post_id: (d.next_post_id + 1) as i32,
    }
}

impl Database {
    /// Publishes a post owned by an existing account. Fails when the
    /// owner is missing or the post id space is exhausted; a failure
    /// changes nothing.
    pub fn post(&mut self, owner_id: i32, text: &str, image: &Option<String>, unix_time: i64) -> (r:
        Result<(), DbError>)
        requires
            db_wf(old(self)@),
        ensures
            db_wf(final(self)@),
            !has_user_id(old(self)@, owner_id) ==> (r == Result::<(), DbError>::Err(
                DbError::NotFound,
            ) && final(self)@ == old(self)@),
            has_user_id(old(self)@, owner_id) && old(self)@.next_post_id == i32::MAX ==> (r
                == Result::<(), DbError>::Err(DbError::Full) && final(self)@ == old(self)@),
            has_user_id(old(self)@, owner_id) && old(self)@.next_post_id < i32::MAX ==> (r is Ok
                && final(self)@ == spec_add_post(
                old(self)@,
                owner_id,
                text@,
                opt_str_view(*image),
                unix_time,
            )),
    {
        let ghost d0 = self@;
        let oi = match self.idx_by_id(owner_id) {
            Some(i) => i,
            None => {
                return Err(DbError::NotFound);
            },
        };
        if self.next_post_id == i32::MAX {
            return Err(DbError::Full);
        }
        proof {
            assert(user_row_wf(d0.users[oi as int], d0.next_user_id));
        }
        let pid = self.next_post_id;
        self.next_post_id = self.next_post_id + 1;
        self.posts.push(
            PostRow {
                post_id: pid,
                owner_id,
                text: Some(text.to_owned()),
                image: match image {
                    Some(s) => Some(s.clone()),
                    None => None,
                },
                likes: Vec::new(),
                likes_count: 0,
                comments_count: 0,
                unix_time,
                parent_id: None,
            },
        );
        proof {
            let d1 = self@;
            assert(d1.posts =~= d0.posts.push(
                new_post_row(owner_id, Some(text@), opt_str_view(*image), unix_time, None, pid),
            ));
            assert(d1 == spec_add_post(d0, owner_id, text@, opt_str_view(*image), unix_time));
            assert forall|i: int| 0 <= i < d1.posts.len() implies post_row_wf(
                #[trigger] d1.posts[i],
                d1.next_post_id,
                d1.next_user_id,
            ) by {
                if i < d0.posts.len() {
                    assert(post_row_wf(d0.posts[i], d0.next_post_id, d0.next_user_id));
                }
            }
            assert forall|i: int, j: int|
                #![trigger d1.posts[i], d1.posts[j]]
                0 <= i < j < d1.posts.len() implies d1.posts[i].post_id != d1.posts[j].post_id by {
                if j < d0.posts.len() {
                    assert(d0.posts[i].post_id != d0.posts[j].post_id);
                } else {
                    assert(post_row_wf(d0.posts[i], d0.next_post_id, d0.next_user_id));
                }
            }
            lemma_wf_posts_change(d0, d1);
        }
        Ok(())
    }

    /// Adds a comment under an existing post by an existing account, and
    /// counts it on the parent. Fails when the owner or the parent is
    /// missing, or when an id or count is exhausted; a failure changes
    /// nothing.
    pub fn comment(&mut self, owner_id: i32, text: &str, image: &Option<String>, unix_time: i64, owner_post_id: i32) -> (r: Result<(), DbError>)
        requires
            db_wf(old(self)@),
        ensures
            db_wf(final(self)@),
            !has_user_id(old(self)@, owner_id) || !has_post_id(old(self)@, owner_post_id) ==> (r
                == Result::<(), DbError>::Err(DbError::NotFound) && final(self)@ == old(self)@),
            has_user_id(old(self)@, owner_id) && has_post_id(old(self)@, owner_post_id) && (old(self)@.next_post_id == i32::MAX || old(self)@.posts[post_idx(old(self)@, owner_post_id)].comments_count == i32::MAX) ==> (r
                == Result::<(), DbError>::Err(DbError::Full) && final(self)@ == old(self)@),
            has_user_id(old(self)@, owner_id) && has_post_id(old(self)@, owner_post_id) && old(self)@.next_post_id < i32::MAX && old(self)@.posts[post_idx(old(self)@, owner_post_id)].comments_count < i32::MAX ==> (r is Ok && final(self)@ == spec_add_comment(
                old(self)@,
                owner_id,
                text@,
                opt_str_view(*image),
                unix_time,
                owner_post_id,
            )),
    {
        let ghost d0 = self@;
        let oi = match self.idx_by_id(owner_id) {
            Some(i) => i,
            None => {
                return Err(DbError::NotFound);
            },
        };
        let pi = match self.idx_by_post_id(owner_post_id) {
            Some(i) => i,
            None => {
                return Err(DbError::NotFound);
            },
        };
        proof {
            lemma_post_id_unique(d0, pi as int, post_idx(d0, owner_post_id));
            assert(post_row_wf(d0.posts[pi as int], d0.next_post_id, d0.next_user_id));
            assert(user_row_wf(d0.users[oi as int], d0.next_user_id));
        }
        if self.next_post_id == i32::MAX || self.posts[pi].comments_count == i32::MAX {
            return Err(DbError::Full);
        }
        let pid = self.next_post_id;
        self.next_post_id = self.next_post_id + 1;
        let c = self.posts[pi].comments_count;
        self.posts[pi].comments_count = c + 1;
        self.posts.push(
            PostRow {
                post_id: pid,
                owner_id,
                text: Some(text.to_owned()),
                image: match image {
                    Some(s) => Some(s.clone()),
                    None => None,
                },
                likes: Vec::new(),
                likes_count: 0,
                comments_count: 0,
                unix_time,
                parent_id: Some(owner_post_id),
            },
        );
        proof {
            let d1 = self@;
            let parent = d0.posts[pi as int];
            assert(d1.posts =~= d0.posts.update(
                pi as int,
                PostRowView { comments_count: (parent.comments_count + 1) as i32, ..parent },
            ).push(
                new_post_row(
                    owner_id,
                    Some(text@),
                    opt_str_view(*image),
                    unix_time,
                    Some(owner_post_id),
                    pid,
                ),
            ));
            assert(d1 == spec_add_comment(
                d0,
                owner_id,
                text@,
                opt_str_view(*image),
                unix_time,
                owner_post_id,
            ));
            assert forall|i: int| 0 <= i < d1.posts.len() implies post_row_wf(
                #[trigger] d1.posts[i],
                d1.next_post_id,
                d1.next_user_id,
            ) by {
                if i < d0.posts.len() {
                    assert(post_row_wf(d0.posts[i], d0.next_post_id, d0.next_user_id));
                }
            }
            assert forall|i: int, j: int|
                #![trigger d1.posts[i], d1.posts[j]]
                0 <= i < j < d1.posts.len() implies d1.posts[i].post_id != d1.posts[j].post_id by {
                if j < d0.posts.len() {
                    assert(d0.posts[i].post_id != d0.posts[j].post_id);
                } else {
                    assert(post_row_wf(d0.posts[i], d0.next_post_id, d0.next_user_id));
                }
            }
            lemma_wf_posts_change(d0, d1);
        }
        Ok(())
    }

    /// Deletes the post (or comment) row with this id. Fails only when
    /// the id names no row, changing nothing.
    pub fn delete_post(&mut self, post_id: i32) -> (r: Result<(), DbError>)
        requires
            db_wf(old(self)@),
        ensures
            db_wf(final(self)@),
            r is Ok <==> has_post_id(old(self)@, post_id),
            r is Ok ==> final(self)@ == (DbView {
                posts: old(self)@.posts.remove(post_idx(old(self)@, post_id)),
                ..old(self)@
            }),
            r is Err ==> (r == Result::<(), DbError>::Err(DbError::NotFound) && final(self)@
                == old(self)@),
    {
        let ghost d0 = self@;
        let pi = match self.idx_by_post_id(post_id) {
            Some(i) => i,
            None => {
                return Err(DbError::NotFound);
            },
        };
        proof {
            lemma_post_id_unique(d0, pi as int, post_idx(d0, post_id));
        }
        self.posts.remove(pi);
        proof {
            let d1 = self@;
            assert(d1.posts =~= d0.posts.remove(pi as int));
            assert(d0.posts.remove(pi as int) =~= d0.posts.subrange(0, pi as int) + d0.posts.subrange(
                pi + 1,
                d0.posts.len() as int,
            ));
            assert forall|i: int| 0 <= i < d1.posts.len() implies post_row_wf(
                #[trigger] d1.posts[i],
                d1.next_post_id,
                d1.next_user_id,
            ) by {
                let o: int = if i < pi as int { i } else { i + 1 };
                assert(d1.posts[i] == d0.posts[o]);
                assert(post_row_wf(d0.posts[o], d0.next_post_id, d0.next_user_id));
            }
            assert forall|i: int, j: int|
                #![trigger d1.posts[i], d1.posts[j]]
                0 <= i < j < d1.posts.len() implies d1.posts[i].post_id != d1.posts[j].post_id by {
                let oi: int = if i < pi as int { i } else { i + 1 };
                let oj: int = if j < pi as int { j } else { j + 1 };
                assert(d1.posts[i] == d0.posts[oi] && d1.posts[j] == d0.posts[oj]);
                assert(d0.posts[oi].post_id != d0.posts[oj].post_id);
            }
            lemma_wf_posts_change(d0, d1);
        }
        Ok(())
    }
}



/// One post row with its like list and count replaced.
pub open spec fn row_with_likes(p: PostRowView, likes: Seq<i32>, count: i32) -> PostRowView {
    PostRowView { likes: likes, likes_count: count, ..p }
}

/// The store after `user_id` likes the row with `post_id`.
pub open spec fn spec_like(d: DbView, user_id: i32, post_id: i32) -> DbView {
    let pidx = post_idx(d, post_id);
    let p = d.posts[pidx];
    DbView {
        posts: d.posts.update(
            pidx,
            row_with_likes(p, p.likes.push(user_id), (p.likes_count + 1) as i32),
        ),
        ..d
    }
}

/// The store after `user_id` withdraws a like from the row with `post_id`.
pub open spec fn spec_dislike(d: DbView, user_id: i32, post_id: i32) -> DbView {
    let pidx = post_idx(d, post_id);
    let p = d.posts[pidx];
    DbView {
        posts: d.posts.update(
            pidx,
            row_with_likes(p, remove_id(p.likes, user_id), (p.likes_count - 1) as i32),
        ),
        ..d
    }
}

/// A store with one post row changed in its like fields or comment count
/// stays well-formed when the new row is well-formed.
proof fn lemma_wf_post_update(d0: DbView, d1: DbView, idx: int)
    requires
        db_wf(d0),
        0 <= idx < d0.posts.len(),
        d1.users == d0.users,
        d1.next_user_id == d0.next_user_id,
        d1.next_post_id == d0.next_post_id,
        d1.posts.len() == d0.posts.len(),
        forall|i: int| 0 <= i < d0.posts.len() && i != idx ==> d1.posts[i] == d0.posts[i],
        d1.posts[idx].post_id == d0.posts[idx].post_id,
        post_row_wf(d1.posts[idx], d1.next_post_id, d1.next_user_id),
    ensures
        db_wf(d1),
{
    assert forall|i: int| 0 <= i < d1.posts.len() implies post_row_wf(
        #[trigger] d1.posts[i],
        d1.next_post_id,
        d1.next_user_id,
    ) by {
        if i != idx {
            assert(post_row_wf(d0.posts[i], d0.next_post_id, d0.next_user_id));
        }
    }
    assert forall|i: int, j: int|
        #![trigger d1.posts[i], d1.posts[j]]
        0 <= i < j < d1.posts.len() implies d1.posts[i].post_id != d1.posts[j].post_id by {
        assert(d0.posts[i].post_id != d0.posts[j].post_id);
    }
    lemma_wf_posts_change(d0, d1);
}

impl Database {
    /// Whether `user_id` has liked the post with `post_id`. Fails when
    /// the id names no row.
    pub fn likes_list_contains(&self, post_id: i32, user_id: i32) -> (r: Result<bool, DbError>)
        requires
            db_wf(self@),
        ensures
            r is Ok <==> has_post_id(self@, post_id),
            r matches Ok(b) ==> b == self@.posts[post_idx(self@, post_id)].likes.contains(user_id),
    {
        match self.idx_by_post_id(post_id) {
            Some(i) => {
                proof {
                    lemma_post_id_unique(self@, i as int, post_idx(self@, post_id));
                }
                Ok(contains_id(&self.posts[i].likes, user_id))
            },
            None => Err(DbError::NotFound),
        }
    }

    /// Whether `user_id` has liked the comment with `post_id`. Fails
    /// when the id names no row or the row is not a comment.
    pub fn comment_likes_list_contains(&self, post_id: i32, user_id: i32) -> (r: Result<
        bool,
        DbError,
    >)
        requires
            db_wf(self@),
        ensures
            r is Ok <==> (has_post_id(self@, post_id) && self@.posts[post_idx(self@, post_id)].parent_id is Some),
            r matches Ok(b) ==> b == self@.posts[post_idx(self@, post_id)].likes.contains(user_id),
    {
        match self.idx_by_post_id(post_id) {
            Some(i) => {
                proof {
                    lemma_post_id_unique(self@, i as int, post_idx(self@, post_id));
                }
                if self.posts[i].parent_id.is_some() {
                    Ok(contains_id(&self.posts[i].likes, user_id))
                } else {
                    Err(DbError::NotFound)
                }
            },
            None => Err(DbError::NotFound),
        }
    }

    /// Records a like by an existing account on the row with this id:
    /// the account joins the like list and the count is up one. Fails
    /// when the row or the account is missing, when the like is already
    /// there, or when the count is exhausted; a failure changes nothing.
    pub fn like(&mut self, user_id: i32, post_id: i32) -> (r: Result<(), DbError>)
        requires
            db_wf(old(self)@),
        ensures
            db_wf(final(self)@),
            !has_post_id(old(self)@, post_id) || !has_user_id(old(self)@, user_id) ==> (r
                == Result::<(), DbError>::Err(DbError::NotFound) && final(self)@ == old(self)@),
            has_post_id(old(self)@, post_id) && has_user_id(old(self)@, user_id) && old(self)@.posts[post_idx(old(self)@, post_id)].likes.contains(user_id) ==> (r == Result::<
                (),
                DbError,
            >::Err(DbError::Conflict) && final(self)@ == old(self)@),
            has_post_id(old(self)@, post_id) && has_user_id(old(self)@, user_id) && !old(self)@.posts[post_idx(old(self)@, post_id)].likes.contains(user_id) && old(self)@.posts[
                post_idx(old(self)@, post_id)
            ].likes_count < i32::MAX ==> (r is Ok && final(self)@ == spec_like(
                old(self)@,
                user_id,
                post_id,
            )),
            has_post_id(old(self)@, post_id) && has_user_id(old(self)@, user_id) && !old(self)@.posts[post_idx(old(self)@, post_id)].likes.contains(user_id) && old(self)@.posts[
                post_idx(old(self)@, post_id)
            ].likes_count == i32::MAX ==> (r == Result::<(), DbError>::Err(DbError::Full) && final(self)@ == old(self)@),
    {
        let ghost d0 = self@;
        let pi = match self.idx_by_post_id(post_id) {
            Some(i) => i,
            None => {
                return Err(DbError::NotFound);
            },
        };
        let ui = match self.idx_by_id(user_id) {
            Some(i) => i,
            None => {
                return Err(DbError::NotFound);
            },
        };
        proof {
            lemma_post_id_unique(d0, pi as int, post_idx(d0, post_id));
            assert(post_row_wf(d0.posts[pi as int], d0.next_post_id, d0.next_user_id));
            assert(user_row_wf(d0.users[ui as int], d0.next_user_id));
        }
        if contains_id(&self.posts[pi].likes, user_id) {
            return Err(DbError::Conflict);
        }
        if self.posts[pi].likes_count == i32::MAX {
            return Err(DbError::Full);
        }
        self.posts[pi].likes.push(user_id);
        let c = self.posts[pi].likes_count;
        self.posts[pi].likes_count = c + 1;
        proof {
            let d1 = self@;
            let p = d0.posts[pi as int];
            assert(d1.posts =~= d0.posts.update(
                pi as int,
                row_with_likes(p, p.likes.push(user_id), (p.likes_count + 1) as i32),
            ));
            assert(d1 == spec_like(d0, user_id, post_id));
            assert(post_row_wf(d1.posts[pi as int], d1.next_post_id, d1.next_user_id)) by {
                let fl = p.likes;
                assert forall|a: int, b: int| 0 <= a < b < fl.push(user_id).len() implies fl.push(
                    user_id,
                )[a] != fl.push(user_id)[b] by {
                    if b < fl.len() {
                    } else {
                        assert(fl.push(user_id)[b] == user_id);
                        assert(fl.push(user_id)[a] == fl[a]);
                    }
                }
            }
            lemma_wf_post_update(d0, d1, pi as int);
        }
        Ok(())
    }

    /// Withdraws a like from the row with this id: the account leaves
    /// the like list and the count is down one. Fails when the row or
    /// the account is missing or the like is not there; a failure
    /// changes nothing.
    pub fn dislike(&mut self, user_id: i32, post_id: i32) -> (r: Result<(), DbError>)
        requires
            db_wf(old(self)@),
        ensures
            db_wf(final(self)@),
            !has_post_id(old(self)@, post_id) || !has_user_id(old(self)@, user_id) ==> (r
                == Result::<(), DbError>::Err(DbError::NotFound) && final(self)@ == old(self)@),
            has_post_id(old(self)@, post_id) && has_user_id(old(self)@, user_id) && !old(self)@.posts[post_idx(old(self)@, post_id)].likes.contains(user_id) ==> (r == Result::<
                (),
                DbError,
            >::Err(DbError::Conflict) && final(self)@ == old(self)@),
            has_post_id(old(self)@, post_id) && has_user_id(old(self)@, user_id) && old(self)@.posts[post_idx(old(self)@, post_id)].likes.contains(user_id) ==> (r is Ok && final(self)@ == spec_dislike(old(self)@, user_id, post_id)),
    {
        let ghost d0 = self@;
        let pi = match self.idx_by_post_id(post_id) {
            Some(i) => i,
            None => {
                return Err(DbError::NotFound);
            },
        };
        let ui = match self.idx_by_id(user_id) {
            Some(i) => i,
            None => {
                return Err(DbError::NotFound);
            },
        };
        proof {
            lemma_post_id_unique(d0, pi as int, post_idx(d0, post_id));
            assert(post_row_wf(d0.posts[pi as int], d0.next_post_id, d0.next_user_id));
        }
        if !contains_id(&self.posts[pi].likes, user_id) {
            return Err(DbError::Conflict);
        }
        let removed = remove_id_from_vec(&mut self.posts[pi].likes, user_id);
        let c = self.posts[pi].likes_count;
        self.posts[pi].likes_count = c - 1;
        proof {
            let d1 = self@;
            let p = d0.posts[pi as int];
            lemma_remove_id_props(p.likes, user_id);
            assert(d1.posts =~= d0.posts.update(
                pi as int,
                row_with_likes(p, remove_id(p.likes, user_id), (p.likes_count - 1) as i32),
            ));
            assert(d1 == spec_dislike(d0, user_id, post_id));
            assert(post_row_wf(d1.posts[pi as int], d1.next_post_id, d1.next_user_id)) by {
                assert forall|k: int| 0 <= k < remove_id(p.likes, user_id).len() implies 0 < (
                #[trigger] remove_id(p.likes, user_id)[k]) < d1.next_user_id by {
                    assert(p.likes.contains(remove_id(p.likes, user_id)[k]));
                    let k0 = choose|k0: int|
                        0 <= k0 < p.likes.len() && p.likes[k0] == remove_id(p.likes, user_id)[k];
                    assert(0 < p.likes[k0] < d0.next_user_id);
                }
            }
            lemma_wf_post_update(d0, d1, pi as int);
        }
        Ok(())
    }

    /// Records a like on a comment: as `like`, after checking that the
    /// row is a comment.
    pub fn like_comment(&mut self, user_id: i32, post_id: i32) -> (r: Result<(), DbError>)
        requires
            db_wf(old(self)@),
        ensures
            db_wf(final(self)@),
            has_post_id(old(self)@, post_id) && old(self)@.posts[post_idx(old(self)@, post_id)].parent_id is None ==> (r
                == Result::<(), DbError>::Err(DbError::NotFound) && final(self)@ == old(self)@),
            !has_post_id(old(self)@, post_id) || !has_user_id(old(self)@, user_id) ==> (r
                == Result::<(), DbError>::Err(DbError::NotFound) && final(self)@ == old(self)@),
            has_post_id(old(self)@, post_id) && old(self)@.posts[post_idx(old(self)@, post_id)].parent_id is Some
                && has_user_id(old(self)@, user_id) && !old(self)@.posts[
                post_idx(old(self)@, post_id)
            ].likes.contains(user_id) && old(self)@.posts[post_idx(old(self)@, post_id)].likes_count
                < i32::MAX ==> (r is Ok && final(self)@ == spec_like(old(self)@, user_id, post_id)),
            has_post_id(old(self)@, post_id) && old(self)@.posts[post_idx(old(self)@, post_id)].parent_id is Some
                && has_user_id(old(self)@, user_id) && old(self)@.posts[
                post_idx(old(self)@, post_id)
            ].likes.contains(user_id) ==> (r == Result::<(), DbError>::Err(DbError::Conflict)
                && final(self)@ == old(self)@),
            has_post_id(old(self)@, post_id) && old(self)@.posts[post_idx(old(self)@, post_id)].parent_id is Some
                && has_user_id(old(self)@, user_id) && !old(self)@.posts[
                post_idx(old(self)@, post_id)
            ].likes.contains(user_id) && old(self)@.posts[post_idx(old(self)@, post_id)].likes_count
                == i32::MAX ==> (r is Err && final(self)@ == old(self)@),
    {
        let ghost d0 = self@;
        match self.idx_by_post_id(post_id) {
            Some(i) => {
                proof {
                    lemma_post_id_unique(d0, i as int, post_idx(d0, post_id));
                }
                if self.posts[i].parent_id.is_none() {
                    return Err(DbError::NotFound);
                }
            },
            None => {
                return Err(DbError::NotFound);
            },
        };
        self.like(user_id, post_id)
    }

    /// Withdraws a like from a comment: as `dislike`, after checking
    /// that the row is a comment.
    pub fn dislike_comment(&mut self, user_id: i32, post_id: i32) -> (r: Result<(), DbError>)
        requires
            db_wf(old(self)@),
        ensures
            db_wf(final(self)@),
            has_post_id(old(self)@, post_id) && old(self)@.posts[post_idx(old(self)@, post_id)].parent_id is None ==> (r
                == Result::<(), DbError>::Err(DbError::NotFound) && final(self)@ == old(self)@),
            !has_post_id(old(self)@, post_id) || !has_user_id(old(self)@, user_id) ==> (r
                == Result::<(), DbError>::Err(DbError::NotFound) && final(self)@ == old(self)@),
            has_post_id(old(self)@, post_id) && old(self)@.posts[post_idx(old(self)@, post_id)].parent_id is Some
                && has_user_id(old(self)@, user_id) && old(self)@.posts[
                post_idx(old(self)@, post_id)
            ].likes.contains(user_id) ==> (r is Ok && final(self)@ == spec_dislike(
                old(self)@,
                user_id,
                post_id,
            )),
            has_post_id(old(self)@, post_id) && old(self)@.posts[post_idx(old(self)@, post_id)].parent_id is Some
                && has_user_id(old(self)@, user_id) && !old(self)@.posts[
                post_idx(old(self)@, post_id)
            ].likes.contains(user_id) ==> (r is Err && final(self)@ == old(self)@),
    {
        let ghost d0 = self@;
        match self.idx_by_post_id(post_id) {
            Some(i) => {
                proof {
                    lemma_post_id_unique(d0, i as int, post_idx(d0, post_id));
                }
                if self.posts[i].parent_id.is_none() {
                    return Err(DbError::NotFound);
                }
            },
            None => {
                return Err(DbError::NotFound);
            },
        };
        self.dislike(user_id, post_id)
    }

    /// Replaces the text and image of the row with this id; an unknown
    /// id changes nothing, as an update of no rows.
    pub fn edit_post(&mut self, post_id: i32, text: &str, image: &str) -> (r: Result<(), DbError>)
        requires
            db_wf(old(self)@),
        ensures
            db_wf(final(self)@),
            r is Ok,
            !has_post_id(old(self)@, post_id) ==> final(self)@ == old(self)@,
            has_post_id(old(self)@, post_id) ==> final(self)@ == (DbView {
                posts: old(self)@.posts.update(
                    post_idx(old(self)@, post_id),
                    PostRowView {
                        text: Some(text@),
                        image: Some(image@),
                        ..old(self)@.posts[post_idx(old(self)@, post_id)]
                    },
                ),
                ..old(self)@
            }),
    {
        let ghost d0 = self@;
        match self.idx_by_post_id(post_id) {
            Some(i) => {
                proof {
                    lemma_post_id_unique(d0, i as int, post_idx(d0, post_id));
                    assert(post_row_wf(d0.posts[i as int], d0.next_post_id, d0.next_user_id));
                }
                self.posts[i].text = Some(text.to_owned());
                self.posts[i].image = Some(image.to_owned());
                proof {
                    let d1 = self@;
                    assert(d1.posts =~= d0.posts.update(
                        i as int,
                        PostRowView { text: Some(text@), image: Some(image@), ..d0.posts[i as int] },
                    ));
                    lemma_wf_post_update(d0, d1, i as int);
                }
                Ok(())
            },
            None => Ok(()),
        }
    }

    /// Removes the comment with `comment_id` under `owner_post_id` and
    /// counts it off the parent. Fails when no such comment of that post
    /// exists, changing nothing.
    pub fn delete_comment(&mut self, comment_id: i32, owner_post_id: i32) -> (r: Result<
        (),
        DbError,
    >)
        requires
            db_wf(old(self)@),
        ensures
            db_wf(final(self)@),
            r is Ok <==> (has_post_id(old(self)@, comment_id) && old(self)@.posts[
                post_idx(old(self)@, comment_id)
            ].parent_id == Some(owner_post_id)),
            r is Err ==> r == Result::<(), DbError>::Err(DbError::NotFound) && final(self)@ == old(self)@,
            r is Ok ==> final(self)@ == spec_delete_comment(old(self)@, comment_id, owner_post_id),
    {
        let ghost d0 = self@;
        let ci = match self.idx_by_post_id(comment_id) {
            Some(i) => i,
            None => {
                return Err(DbError::NotFound);
            },
        };
        proof {
            lemma_post_id_unique(d0, ci as int, post_idx(d0, comment_id));
        }
        let is_child = match self.posts[ci].parent_id {
            Some(p) => p == owner_post_id,
            None => false,
        };
        if !is_child {
            return Err(DbError::NotFound);
        }
        // count the comment off its parent first, then drop the row
        let ghost dmid = self@;
        match self.idx_by_post_id(owner_post_id) {
            Some(oi) => {
                proof {
                    lemma_post_id_unique(d0, oi as int, post_idx(d0, owner_post_id));
                    assert(post_row_wf(d0.posts[oi as int], d0.next_post_id, d0.next_user_id));
                }
                if self.posts[oi].comments_count > 0 {
                    let c = self.posts[oi].comments_count;
                    self.posts[oi].comments_count = c - 1;
                    proof {
                        assert(self@.posts =~= d0.posts.update(
                            oi as int,
                            PostRowView {
                                comments_count: (d0.posts[oi as int].comments_count - 1) as i32,
                                ..d0.posts[oi as int]
                            },
                        ));
                        lemma_wf_post_update(d0, self@, oi as int);
                    }
                }
            },
            None => {},
        }
        let ghost dcut = self@;
        let ci2 = match self.idx_by_post_id(comment_id) {
            Some(i) => i,
            None => {
                proof {
                    assert(dcut.posts[ci as int].post_id == comment_id);
                }
                return Err(DbError::NotFound);
            },
        };
        proof {
            lemma_post_id_unique(dcut, ci2 as int, post_idx(dcut, comment_id));
            lemma_post_id_unique(dcut, ci2 as int, ci as int);
        }
        self.posts.remove(ci2);
        proof {
            let d1 = self@;
            assert(d1.posts =~= dcut.posts.remove(ci2 as int));
            assert(dcut.posts.remove(ci2 as int) =~= dcut.posts.subrange(0, ci2 as int)
                + dcut.posts.subrange(ci2 + 1, dcut.posts.len() as int));
            assert forall|i: int| 0 <= i < d1.posts.len() implies post_row_wf(
                #[trigger] d1.posts[i],
                d1.next_post_id,
                d1.next_user_id,
            ) by {
                let o: int = if i < ci2 as int { i } else { i + 1 };
                assert(d1.posts[i] == dcut.posts[o]);
                assert(post_row_wf(dcut.posts[o], dcut.next_post_id, dcut.next_user_id));
            }
            assert forall|i: int, j: int|
                #![trigger d1.posts[i], d1.posts[j]]
                0 <= i < j < d1.posts.len() implies d1.posts[i].post_id != d1.posts[j].post_id by {
                let oi: int = if i < ci2 as int { i } else { i + 1 };
                let oj: int = if j < ci2 as int { j } else { j + 1 };
                assert(d1.posts[i] == dcut.posts[oi] && d1.posts[j] == dcut.posts[oj]);
                assert(dcut.posts[oi].post_id != dcut.posts[oj].post_id);
            }
            lemma_wf_posts_change(dcut, d1);
            assert(d1 == spec_delete_comment(d0, comment_id, owner_post_id));
        }
        Ok(())
    }
}

/// The store after a comment is deleted: its parent's count, when the
/// parent is still there and counted anything, is down one, and the
/// comment row is gone.
pub open spec fn spec_delete_comment(d: DbView, comment_id: i32, owner_post_id: i32) -> DbView {
    let cidx = post_idx(d, comment_id);
    let counted = if has_post_id(d, owner_post_id) && d.posts[post_idx(d, owner_post_id)].comments_count > 0 {
        let oidx = post_idx(d, owner_post_id);
        d.posts.update(
            oidx,
            PostRowView { comments_count: (d.posts[oidx].comments_count - 1) as i32, ..d.posts[oidx] },
        )
    } else {
        d.posts
    };
    DbView { posts: counted.remove(cidx), ..d }
}



// ---------------------------------------------------------------------------
// Listings
// ---------------------------------------------------------------------------

/// The identity triple of a stored account, as the credential checks
/// read it.
pub struct UserWithID {
    pub email: String,
    pub userat: String,
    pub id: i32,
}

/// One listing entry drawn from a stored account.
pub struct FollowData {
    pub userat: String,
    pub username: String,
    pub icon: Option<String>,
}

/// A handed-out post mirrors a stored row in every field it carries.
pub open spec fn post_from_row(p: PostRowView, q: Post) -> bool {
    &&& opt_str_view(q.text) == p.text
    &&& opt_str_view(q.image) == p.image
    &&& q.owner_id == p.owner_id
    &&& q.likescount == p.likes_count
    &&& q.unix_time == p.unix_time
}

/// A listing entry mirrors the stored account with this id.
pub open spec fn follow_data_of(d: DbView, id: i32, fd: FollowData) -> bool {
    &&& has_user_id(d, id)
    &&& fd.userat@ == d.users[user_id_idx(d, id)].user_at
    &&& fd.username@ == d.users[user_id_idx(d, id)].user_name
    &&& opt_str_view(fd.icon) == d.users[user_id_idx(d, id)].icon
}

/// A post listing result: some newest-first arrangement of the selected
/// rows, handed out row by row.
pub open spec fn post_listing_ok(d: DbView, f: PostFilter, v: Seq<Post>) -> bool {
    exists|ord: Seq<int>|
        post_order_ok(d, f, ord) && v.len() == ord.len() && (forall|k: int|
            0 <= k < ord.len() ==> post_from_row(d.posts[#[trigger] ord[k]], v[k]))
}

impl Database {
    /// The rows a filter selects, newest first, as handed-out posts.
    fn collect_posts(&self, filter: PostFilter) -> (v: Vec<Post>)
        requires
            db_wf(self@),
        ensures
            post_listing_ok(self@, filter, v@),
    {
        let idxs = self.posts_sorted_desc(filter);
        let mut v: Vec<Post> = Vec::new();
        let m = idxs.len();
        for k in 0..m
            invariant
                m == idxs@.len(),
                post_order_ok(self@, filter, idxs_view(idxs@)),
                v@.len() == k,
                forall|j: int|
                    0 <= j < k ==> post_from_row(self@.posts[#[trigger] idxs@[j] as int], v@[j]),
        {
            proof {
                assert(idxs_view(idxs@)[k as int] == idxs@[k as int] as int);
            }
            let row = &self.posts[idxs[k]];
            v.push(
                Post {
                    text: match &row.text {
                        Some(t) => Some(t.clone()),
                        None => None,
                    },
                    image: match &row.image {
                        Some(t) => Some(t.clone()),
                        None => None,
                    },
                    owner_id: row.owner_id,
                    likescount: row.likes_count,
                    unix_time: row.unix_time,
                },
            );
        }
        proof {
            let ord = idxs_view(idxs@);
            assert(post_order_ok(self@, filter, ord) && v@.len() == ord.len() && (forall|k: int|
                0 <= k < ord.len() ==> post_from_row(self@.posts[#[trigger] ord[k]], v@[k])));
        }
        v
    }

    /// All top-level posts, newest first.
    pub fn get_posts(&self) -> (r: Result<Vec<Post>, DbError>)
        requires
            db_wf(self@),
        ensures
            r is Ok,
            r matches Ok(v) ==> post_listing_ok(self@, PostFilter::TopLevel, v@),
    {
        Ok(self.collect_posts(PostFilter::TopLevel))
    }

    /// The top-level posts of one owner, newest first.
    pub fn get_user_posts(&self, owner_id: i32) -> (r: Result<Vec<Post>, DbError>)
        requires
            db_wf(self@),
        ensures
            r is Ok,
            r matches Ok(v) ==> post_listing_ok(self@, PostFilter::ByOwner(owner_id), v@),
    {
        Ok(self.collect_posts(PostFilter::ByOwner(owner_id)))
    }

    /// The comments of one post, newest first.
    pub fn get_comments_from_post(&self, post_id: i32) -> (r: Result<Vec<Post>, DbError>)
        requires
            db_wf(self@),
        ensures
            r is Ok,
            r matches Ok(v) ==> post_listing_ok(self@, PostFilter::CommentsOf(post_id), v@),
    {
        Ok(self.collect_posts(PostFilter::CommentsOf(post_id)))
    }

    /// The accounts this email's account follows, entry by entry in list
    /// order. Fails only when the email names no account.
    pub fn get_following_list(&self, email: &str) -> (r: Result<Vec<FollowData>, DbError>)
        requires
            db_wf(self@),
        ensures
            r is Ok <==> email_taken(self@, email@),
            r matches Ok(v) ==> {
                let u = self@.users[email_idx(self@, email@)];
                v@.len() == u.following.len() && (forall|k: int|
                    0 <= k < u.following.len() ==> follow_data_of(self@, u.following[k], v@[k]))
            },
    {
        let ghost d = self@;
        let ui = match self.idx_by_email(email) {
            Some(i) => i,
            None => {
                return Err(DbError::NotFound);
            },
        };
        proof {
            lemma_email_unique(d, ui as int, email_idx(d, email@));
            assert(user_row_wf(d.users[ui as int], d.next_user_id));
        }
        let mut v: Vec<FollowData> = Vec::new();
        let m = self.users[ui].following.len();
        for k in 0..m
            invariant
                db_wf(d),
                d == self@,
                ui < d.users.len(),
                m == d.users[ui as int].following.len(),
                v@.len() == k,
                forall|j: int|
                    0 <= j < k ==> follow_data_of(d, d.users[ui as int].following[j], v@[j]),
        {
            let fid = self.users[ui].following[k];
            proof {
                assert(has_user_id(d, d.users[ui as int].following[k as int]));
            }
            match self.idx_by_id(fid) {
                Some(j) => {
                    proof {
                        lemma_user_id_unique(d, j as int, user_id_idx(d, fid));
                    }
                    let row = &self.users[j];
                    v.push(
                        FollowData {
                            userat: row.user_at.clone(),
                            username: row.user_name.clone(),
                            icon: match &row.icon {
                                Some(s) => Some(s.clone()),
                                None => None,
                            },
                        },
                    );
                },
                None => {
                    proof {
                        assert(false);
                    }
                },
            }
        }
        Ok(v)
    }

    /// The accounts following this email's account, entry by entry in
    /// list order. Fails only when the email names no account.
    pub fn get_followers_list(&self, email: &str) -> (r: Result<Vec<FollowData>, DbError>)
        requires
            db_wf(self@),
        ensures
            r is Ok <==> email_taken(self@, email@),
            r matches Ok(v) ==> {
                let u = self@.users[email_idx(self@, email@)];
                v@.len() == u.followers.len() && (forall|k: int|
                    0 <= k < u.followers.len() ==> follow_data_of(self@, u.followers[k], v@[k]))
            },
    {
        let ghost d = self@;
        let ui = match self.idx_by_email(email) {
            Some(i) => i,
            None => {
                return Err(DbError::NotFound);
            },
        };
        proof {
            lemma_email_unique(d, ui as int, email_idx(d, email@));
            assert(user_row_wf(d.users[ui as int], d.next_user_id));
        }
        let mut v: Vec<FollowData> = Vec::new();
        let m = self.users[ui].followers.len();
        for k in 0..m
            invariant
                db_wf(d),
                d == self@,
                ui < d.users.len(),
                m == d.users[ui as int].followers.len(),
                v@.len() == k,
                forall|j: int|
                    0 <= j < k ==> follow_data_of(d, d.users[ui as int].followers[j], v@[j]),
        {
            let fid = self.users[ui].followers[k];
            proof {
                assert(has_user_id(d, d.users[ui as int].followers[k as int]));
            }
            match self.idx_by_id(fid) {
                Some(j) => {
                    proof {
                        lemma_user_id_unique(d, j as int, user_id_idx(d, fid));
                    }
                    let row = &self.users[j];
                    v.push(
                        FollowData {
                            userat: row.user_at.clone(),
                            username: row.user_name.clone(),
                            icon: match &row.icon {
                                Some(s) => Some(s.clone()),
                                None => None,
                            },
                        },
                    );
                },
                None => {
                    proof {
                        assert(false);
                    }
                },
            }
        }
        Ok(v)
    }
}

// ---------------------------------------------------------------------------
// Account search
// ---------------------------------------------------------------------------

/// `needle` occurs contiguously in `hay`.
pub open spec fn seq_contains_sub(hay: Seq<char>, needle: Seq<char>) -> bool {
    exists|i: int|
        0 <= i <= hay.len() - needle.len() && #[trigger] hay.subrange(i, i + needle.len())
            == needle
}

/// Decides `seq_contains_sub`.
pub fn contains_sub(hay: &str, needle: &str) -> (b: bool)
    ensures
        b == seq_contains_sub(hay@, needle@),
{
    let n = hay.unicode_len();
    let m = needle.unicode_len();
    if m == 0 {
        proof {
            assert(hay@.subrange(0, 0 + needle@.len() as int) =~= needle@);
        }
        return true;
    }
    if m > n {
        return false;
    }
    let last = n - m;
    for i in 0..last + 1
        invariant
            n == hay@.len(),
            m == needle@.len(),
            m >= 1,
            last == n - m,
            forall|q: int| 0 <= q < i ==> #[trigger] hay@.subrange(q, q + m) != needle@,
    {
        let mut all_eq = true;
        let mut j: usize = 0;
        while j < m
            invariant
                n == hay@.len(),
                m == needle@.len(),
                i + m <= n,
                j <= m,
                all_eq == forall|q: int| 0 <= q < j ==> hay@[i + q] == needle@[q],
            decreases m - j,
        {
            if hay.get_char(i + j) != needle.get_char(j) {
                all_eq = false;
                j = m;
            } else {
                proof {
                    assert(hay@[i + j] == needle@[j as int]);
                }
                j = j + 1;
            }
        }
        if all_eq {
            proof {
                assert(hay@.subrange(i as int, i + m) =~= needle@);
            }
            return true;
        }
        proof {
            assert(hay@.subrange(i as int, i + m) != needle@) by {
                let q = choose|q: int| 0 <= q < m && hay@[i + q] != needle@[q];
                assert(hay@.subrange(i as int, i + m)[q] == hay@[i + q]);
            }
        }
    }
    proof {
        assert forall|q: int| 0 <= q <= hay@.len() - needle@.len() implies #[trigger] hay@.subrange(
            q,
            q + needle@.len(),
        ) != needle@ by {}
    }
    false
}

/// A stored account matches a search text when the text occurs in its
/// handle or in its display name.
pub open spec fn user_query_matches(u: UserRowView, q: Seq<char>) -> bool {
    seq_contains_sub(u.user_at, q) || seq_contains_sub(u.user_name, q)
}

/// A search result: the matching accounts in store order.
pub open spec fn query_listing_ok(d: DbView, q: Seq<char>, v: Seq<FollowData>) -> bool {
    exists|ord: Seq<int>|
        {
            &&& forall|k: int| 0 <= k < ord.len() ==> 0 <= #[trigger] ord[k] < d.users.len()
            &&& forall|k: int| 0 <= k < ord.len() ==> user_query_matches(d.users[#[trigger] ord[k]], q)
            &&& forall|a: int, b: int| 0 <= a < b < ord.len() ==> #[trigger] ord[a] < #[trigger] ord[b]
            &&& forall|p: int|
                0 <= p < d.users.len() && user_query_matches(#[trigger] d.users[p], q) ==> ord.contains(
                    p,
                )
            &&& v.len() == ord.len()
            &&& forall|k: int|
                0 <= k < ord.len() ==> {
                    let w = d.users[#[trigger] ord[k]];
                    v[k].userat@ == w.user_at && v[k].username@ == w.user_name && opt_str_view(
                        v[k].icon,
                    ) == w.icon
                }
        }
}

impl Database {
    /// The accounts whose handle or display name contains the search
    /// text, in store order.
    pub fn query_like(&self, query: &str) -> (r: Result<Vec<FollowData>, DbError>)
        requires
            db_wf(self@),
        ensures
            r is Ok,
            r matches Ok(v) ==> query_listing_ok(self@, query@, v@),
    {
        let mut v: Vec<FollowData> = Vec::new();
        let ghost mut ord: Seq<int> = Seq::empty();
        let n = self.users.len();
        for i in 0..n
            invariant
                n == self@.users.len(),
                forall|k: int| 0 <= k < ord.len() ==> 0 <= #[trigger] ord[k] < i,
                forall|k: int|
                    0 <= k < ord.len() ==> user_query_matches(self@.users[#[trigger] ord[k]], query@),
                forall|a: int, b: int| 0 <= a < b < ord.len() ==> #[trigger] ord[a] < #[trigger] ord[b],
                forall|p: int|
                    0 <= p < i && user_query_matches(#[trigger] self@.users[p], query@)
                        ==> ord.contains(p),
                v@.len() == ord.len(),
                forall|k: int|
                    0 <= k < ord.len() ==> {
                        let w = self@.users[#[trigger] ord[k]];
                        v@[k].userat@ == w.user_at && v@[k].username@ == w.user_name && opt_str_view(
                            v@[k].icon,
                        ) == w.icon
                    },
        {
            let row = &self.users[i];
            if contains_sub(row.user_at.as_str(), query) || contains_sub(
                row.user_name.as_str(),
                query,
            ) {
                let ghost ord0 = ord;
                proof {
                    ord = ord.push(i as int);
                }
                v.push(
                    FollowData {
                        userat: row.user_at.clone(),
                        username: row.user_name.clone(),
                        icon: match &row.icon {
                            Some(s) => Some(s.clone()),
                            None => None,
                        },
                    },
                );
                proof {
                    assert forall|p: int|
                        0 <= p < i + 1 && user_query_matches(#[trigger] self@.users[p], query@) implies ord.contains(
                        p,
                    ) by {
                        if p == i as int {
                            assert(ord[ord.len() - 1] == p);
                        } else {
                            assert(ord0.contains(p));
                            let k = choose|k: int| 0 <= k < ord0.len() && ord0[k] == p;
                            assert(ord[k] == p);
                        }
                    }
                }
            }
        }
        Ok(v)
    }
}


} // verus!
