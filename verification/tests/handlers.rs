//! The route pipelines end to end: registration, login, sessions,
//! follows, posts, comments, likes and profile reads.

use socialnet::auth::validate_jwt;
use socialnet::database::user::User;
use socialnet::database::Database;
use socialnet::routes::change::{
    change_email, change_password, change_user_at, edit_post, follow_user, FollowData,
};
use socialnet::routes::types::{
    EmailChangeData, LoginData, PasswordChangeData, ProfileUpdate, UserAtChangeData,
};
use socialnet::routes::user::{
    comment, create, delete, delete_comment, delete_post, fetch_post, fetch_posts,
    fetch_user_posts, like, like_comment, logout, publish_post, DeleteCommentData, LikeInfo,
    PostData,
};
use socialnet::routes::user_get::{
    fetch_comments, get_data, get_followers, get_following, get_profile_data, query,
};

const SECRET: &str = "handler-test-secret";
const NOW: u64 = 1_700_000_000;

fn ana_form() -> User {
    User {
        user_name: String::from("Ana"),
        user_at: String::from("Ana"),
        email: String::from("Ana@example.com"),
        password: String::from("password1"),
    }
}

fn bob_form() -> User {
    User {
        user_name: String::from("Bob"),
        user_at: String::from("bob"),
        email: String::from("bob@example.com"),
        password: String::from("password2"),
    }
}

fn signed_up(db: &mut Database, form: User) -> String {
    let r = create(db, form, NOW, SECRET);
    assert_eq!(r.status, 201);
    assert_eq!(r.message, "User created");
    r.token.unwrap()
}

#[test]
fn create_twice_yields_username_in_use() {
    let mut db = Database::new();
    let token = signed_up(&mut db, ana_form());
    // the handle and email were lowered before storing
    assert!(db.user_exists("ana"));
    assert!(db.email_exists("ana@example.com"));
    let s = validate_jwt(token.as_str(), NOW + 1, SECRET).unwrap();
    assert_eq!(s.user_at, "ana");
    assert_eq!(s.email, "ana@example.com");
    let second = create(&mut db, ana_form(), NOW, SECRET);
    assert_eq!(second.status, 400);
    assert_eq!(second.message, "Username already in use");
    assert!(second.token.is_none());
    let mut third = ana_form();
    third.user_at = String::from("ana2");
    let r = create(&mut db, third, NOW, SECRET);
    assert_eq!(r.status, 400);
    assert_eq!(r.message, "Email already in use");
}

#[test]
fn create_rejects_invalid_fields_in_order() {
    let mut db = Database::new();
    let mut f = ana_form();
    f.user_name = String::from("A");
    assert_eq!(create(&mut db, f, NOW, SECRET).message, "username too short");
    let mut f = ana_form();
    f.user_at = String::from("a!");
    assert_eq!(
        create(&mut db, f, NOW, SECRET).message,
        "user_at invalid character"
    );
    let mut f = ana_form();
    f.email = String::from("not-an-email");
    assert_eq!(create(&mut db, f, NOW, SECRET).message, "email invalid email");
    let mut f = ana_form();
    f.password = String::from("short");
    assert_eq!(create(&mut db, f, NOW, SECRET).message, "password too short");
    assert!(db.users.is_empty());
}

#[test]
fn login_with_wrong_password_is_invalid_credentials() {
    let mut db = Database::new();
    signed_up(&mut db, ana_form());
    let r = login_of(&db, "Ana@example.com", "wrongpass1");
    assert_eq!(r.0, 400);
    assert_eq!(r.1, "Invalid credentials");
    let ok = login_of(&db, "ana@example.com", "password1");
    assert_eq!(ok.0, 200);
    let s = validate_jwt(ok.2.unwrap().as_str(), NOW + 1, SECRET).unwrap();
    assert_eq!(s.user_at, "ana");
    // unknown email reads the same as a wrong password
    let r = login_of(&db, "who@example.com", "password1");
    assert_eq!(r.1, "Invalid credentials");
}

fn login_of(db: &Database, email: &str, password: &str) -> (u16, &'static str, Option<String>) {
    let r = socialnet::routes::user::login(
        db,
        &LoginData {
            email: String::from(email),
            password: String::from(password),
        },
        NOW,
        SECRET,
    );
    (r.status, r.message, r.token)
}

#[test]
fn follow_self_is_refused() {
    let mut db = Database::new();
    let token = signed_up(&mut db, ana_form());
    let r = follow_user(
        &mut db,
        &FollowData {
            user_at: String::from("ana"),
            follow: true,
            icon: None,
        },
        Some(token.as_str()),
        NOW + 1,
        SECRET,
    );
    assert_eq!(r.status, 400);
    assert_eq!(r.message, "You can't follow yourself");
}

#[test]
fn follow_and_unfollow_through_the_route() {
    let mut db = Database::new();
    signed_up(&mut db, ana_form());
    let bob_token = signed_up(&mut db, bob_form());
    let data = FollowData {
        user_at: String::from("ana"),
        follow: true,
        icon: None,
    };
    let r = follow_user(&mut db, &data, Some(bob_token.as_str()), NOW + 1, SECRET);
    assert_eq!(r.status, 200);
    let followers = get_followers(&db, "ana");
    assert_eq!(followers.status, 200);
    let list = followers.data.unwrap();
    assert_eq!(list.len(), 1);
    assert_eq!(list[0].user_at, "bob");
    let following = get_following(&db, "bob");
    assert_eq!(following.data.unwrap()[0].user_at, "ana");
    // the profile shows the relation to the caller
    let profile = get_profile_data(&db, "ana", Some(bob_token.as_str()), NOW + 1, SECRET);
    assert_eq!(profile.status, 200);
    let pd = profile.data.unwrap();
    assert!(pd.is_following);
    assert!(!pd.is_himself);
    assert_eq!(pd.followers_count, 1);
    // and the way back
    let undo = FollowData {
        user_at: String::from("ana"),
        follow: false,
        icon: None,
    };
    let r = follow_user(&mut db, &undo, Some(bob_token.as_str()), NOW + 1, SECRET);
    assert_eq!(r.status, 200);
    assert!(get_followers(&db, "ana").data.unwrap().is_empty());
    // following an unknown handle
    let missing = FollowData {
        user_at: String::from("ghost"),
        follow: true,
        icon: None,
    };
    let r = follow_user(&mut db, &missing, Some(bob_token.as_str()), NOW + 1, SECRET);
    assert_eq!(r.status, 400);
    assert_eq!(r.message, "User doesn't exist");
}

#[test]
fn empty_post_is_a_bad_request() {
    let mut db = Database::new();
    let token = signed_up(&mut db, ana_form());
    let r = publish_post(
        &mut db,
        &PostData {
            text: None,
            image: None,
        },
        Some(token.as_str()),
        NOW + 1,
        1_700_000_100_000,
        SECRET,
    );
    assert_eq!(r.status, 400);
    assert_eq!(r.message, "Bad request, post was empty");
    let mut long = String::new();
    for _ in 0..201 {
        long.push('x');
    }
    let r = publish_post(
        &mut db,
        &PostData {
            text: Some(long),
            image: None,
        },
        Some(token.as_str()),
        NOW + 1,
        1_700_000_100_000,
        SECRET,
    );
    assert_eq!(r.status, 400);
    assert_eq!(r.message, "Text too long");
    assert!(db.posts.is_empty());
}

#[test]
fn delete_without_valid_session_is_forbidden() {
    let mut db = Database::new();
    signed_up(&mut db, ana_form());
    let r = delete(&mut db, None, NOW + 1, SECRET);
    assert_eq!(r.status, 403);
    assert_eq!(r.message, "Unauthorized user");
    let r = delete(&mut db, Some("garbage-token"), NOW + 1, SECRET);
    assert_eq!(r.status, 403);
    assert_eq!(db.users.len(), 1);
}

#[test]
fn delete_with_live_session_removes_the_account() {
    let mut db = Database::new();
    let token = signed_up(&mut db, ana_form());
    let r = delete(&mut db, Some(token.as_str()), NOW + 1, SECRET);
    assert_eq!(r.status, 204);
    assert_eq!(r.message, "User deleted");
    assert!(db.users.is_empty());
    // an expired session is refused
    let mut db2 = Database::new();
    let token2 = signed_up(&mut db2, ana_form());
    let r = delete(&mut db2, Some(token2.as_str()), NOW + 700_000, SECRET);
    assert_eq!(r.status, 403);
    assert_eq!(db2.users.len(), 1);
}

#[test]
fn posts_comments_and_likes_through_the_routes() {
    let mut db = Database::new();
    let ana_token = signed_up(&mut db, ana_form());
    let bob_token = signed_up(&mut db, bob_form());
    let r = publish_post(
        &mut db,
        &PostData {
            text: Some(String::from("hello world")),
            image: None,
        },
        Some(ana_token.as_str()),
        NOW + 1,
        1_000,
        SECRET,
    );
    assert_eq!(r.status, 200);
    let post_id = db.posts[0].post_id;
    // bob likes it, then comments
    assert_eq!(
        like(
            &mut db,
            Some(bob_token.as_str()),
            &LikeInfo { post_id },
            NOW + 1,
            SECRET
        ),
        200
    );
    let r = comment(
        &mut db,
        &PostData {
            text: Some(String::from("nice")),
            image: None,
        },
        post_id,
        Some(bob_token.as_str()),
        NOW + 1,
        2_000,
        SECRET,
    );
    assert_eq!(r.status, 200);
    // the listing shows the join and bob's like
    let fetched = fetch_posts(&db, Some(bob_token.as_str()), NOW + 1, SECRET);
    assert_eq!(fetched.status, 200);
    let posts = fetched.data.unwrap();
    assert_eq!(posts.len(), 1);
    assert_eq!(posts[0].text, "hello world");
    assert_eq!(posts[0].user_at, "ana");
    assert_eq!(posts[0].username, "Ana");
    assert_eq!(posts[0].likes_count, 1);
    assert_eq!(posts[0].comments_count, 1);
    assert_eq!(posts[0].unix_time, "1000");
    assert!(posts[0].has_this_user_liked);
    // anonymous viewers read the same post without a like mark
    let anon = fetch_post(&db, post_id, None, NOW + 1, SECRET);
    assert!(!anon.data.unwrap().has_this_user_liked);
    // the comment listing, and a like on the comment
    let comments = fetch_comments(&db, Some(ana_token.as_str()), post_id, NOW + 1, SECRET);
    let comments = comments.data.unwrap();
    assert_eq!(comments.len(), 1);
    assert_eq!(comments[0].text, "nice");
    let comment_id = comments[0].post_id;
    assert_eq!(
        like_comment(
            &mut db,
            Some(ana_token.as_str()),
            &LikeInfo { post_id: comment_id },
            NOW + 1,
            SECRET
        ),
        200
    );
    // a second like toggles it off
    assert_eq!(
        like_comment(
            &mut db,
            Some(ana_token.as_str()),
            &LikeInfo { post_id: comment_id },
            NOW + 1,
            SECRET
        ),
        200
    );
    // ana's page lists her post
    let hers = fetch_user_posts(&db, "ana", None, NOW + 1, SECRET);
    assert_eq!(hers.data.unwrap().len(), 1);
    // bob deletes his comment, ana her post
    let r = delete_comment(
        &mut db,
        &DeleteCommentData {
            comment_id,
            owner_post_id: post_id,
        },
        Some(bob_token.as_str()),
        NOW + 1,
        SECRET,
    );
    assert_eq!(r.status, 204);
    assert_eq!(db.posts[0].comments_count, 0);
    let r = delete_post(&mut db, post_id, Some(ana_token.as_str()), NOW + 1, SECRET);
    assert_eq!(r.status, 204);
    assert!(db.posts.is_empty());
}

#[test]
fn profile_and_identity_changes() {
    let mut db = Database::new();
    let token = signed_up(&mut db, ana_form());
    // profile text fields
    let r = socialnet::routes::change::change_profile(
        &mut db,
        &ProfileUpdate {
            username: String::from("AnaMaria"),
            bio: String::from("hi there"),
            icon: String::from("icon-data"),
        },
        Some(token.as_str()),
        NOW + 1,
        SECRET,
    );
    assert_eq!(r.status, 200);
    let me = get_data(&db, Some(token.as_str()), NOW + 1, SECRET);
    assert_eq!(me.status, 200);
    let me = me.data.unwrap();
    assert_eq!(me.username, "AnaMaria");
    assert_eq!(me.bio.as_deref(), Some("hi there"));
    assert_eq!(me.icon, "icon-data");
    // password change requires the current one
    let r = change_password(
        &mut db,
        &PasswordChangeData {
            current_password: String::from("wrongpass1"),
            new_password: String::from("password9"),
        },
        Some(token.as_str()),
        NOW + 1,
        SECRET,
    );
    assert_eq!(r.status, 403);
    assert_eq!(r.message, "Current password doesn't match");
    let r = change_password(
        &mut db,
        &PasswordChangeData {
            current_password: String::from("password1"),
            new_password: String::from("password1"),
        },
        Some(token.as_str()),
        NOW + 1,
        SECRET,
    );
    assert_eq!(r.message, "New password cannot be the same as the old one");
    let r = change_password(
        &mut db,
        &PasswordChangeData {
            current_password: String::from("password1"),
            new_password: String::from("password9"),
        },
        Some(token.as_str()),
        NOW + 1,
        SECRET,
    );
    assert_eq!(r.status, 200);
    assert!(db.verify_password("ana@example.com", "password9"));
    // handle change strips a leading @, lowers, and re-issues the session
    let r = change_user_at(
        &mut db,
        &UserAtChangeData {
            user_at: String::from("@Ana_Nova"),
        },
        Some(token.as_str()),
        NOW + 1,
        SECRET,
    );
    assert_eq!(r.status, 200);
    assert!(db.user_exists("ana_nova"));
    let new_token = r.token.unwrap();
    let s = validate_jwt(new_token.as_str(), NOW + 2, SECRET).unwrap();
    assert_eq!(s.user_at, "ana_nova");
    // the old token no longer matches the stored identity
    let r = change_email(
        &mut db,
        &EmailChangeData {
            email: String::from("New@Example.com"),
        },
        Some(token.as_str()),
        NOW + 2,
        SECRET,
    );
    assert_eq!(r.status, 403);
    let r = change_email(
        &mut db,
        &EmailChangeData {
            email: String::from("New@Example.com"),
        },
        Some(new_token.as_str()),
        NOW + 2,
        SECRET,
    );
    assert_eq!(r.status, 200);
    assert!(db.email_exists("new@example.com"));
    let s = validate_jwt(r.token.unwrap().as_str(), NOW + 3, SECRET).unwrap();
    assert_eq!(s.email, "new@example.com");
}

#[test]
fn post_edits_and_the_session_check() {
    let mut db = Database::new();
    let token = signed_up(&mut db, ana_form());
    publish_post(
        &mut db,
        &PostData {
            text: Some(String::from("draft")),
            image: None,
        },
        Some(token.as_str()),
        NOW + 1,
        1_000,
        SECRET,
    );
    let post_id = db.posts[0].post_id;
    let r = edit_post(
        &mut db,
        &socialnet::routes::change::EditPostData {
            text: String::from("final text"),
            image: String::from("img"),
        },
        post_id,
        Some(token.as_str()),
        NOW + 1,
        SECRET,
    );
    assert_eq!(r.status, 200);
    assert_eq!(db.posts[0].text.as_deref(), Some("final text"));
    // the session-check route
    let r = socialnet::routes::auth::validate(Some(token.as_str()), NOW + 1, SECRET);
    assert_eq!(r.status, 200);
    assert_eq!(r.message, "Authorized");
    let r = socialnet::routes::auth::validate(Some(token.as_str()), NOW + 700_000, SECRET);
    assert_eq!(r.status, 403);
    let r = socialnet::routes::auth::validate(None, NOW + 1, SECRET);
    assert_eq!(r.status, 403);
    assert_eq!(r.message, "No credentials");
    // logging out
    assert_eq!(logout(Some(token.as_str())).status, 200);
    assert_eq!(logout(None).status, 400);
}

#[test]
fn search_and_profile_lookup() {
    let mut db = Database::new();
    signed_up(&mut db, ana_form());
    signed_up(&mut db, bob_form());
    let r = query(&db, "an");
    assert_eq!(r.status, 200);
    let hits = r.data.unwrap();
    assert_eq!(hits.len(), 1);
    assert_eq!(hits[0].user_at, "ana");
    let r = query(&db, "  ");
    assert_eq!(r.status, 400);
    assert!(r.data.unwrap().is_empty());
    // profiles: unknown and invalid handles are not found
    assert_eq!(get_profile_data(&db, "ghost", None, NOW, SECRET).status, 404);
    assert_eq!(get_profile_data(&db, "a!", None, NOW, SECRET).status, 404);
    let r = get_profile_data(&db, "ana", None, NOW, SECRET);
    assert_eq!(r.status, 200);
    let pd = r.data.unwrap();
    assert_eq!(pd.username, "Ana");
    assert!(!pd.is_following);
    assert!(!pd.is_himself);
}

#[test]
fn expired_sessions_read_as_anonymous_and_cannot_write() {
    let mut db = Database::new();
    let token = signed_up(&mut db, ana_form());
    publish_post(
        &mut db,
        &PostData {
            text: Some(String::from("a post")),
            image: None,
        },
        Some(token.as_str()),
        NOW + 1,
        1_000,
        SECRET,
    );
    let post_id = db.posts[0].post_id;
    like(
        &mut db,
        Some(token.as_str()),
        &LikeInfo { post_id },
        NOW + 1,
        SECRET,
    );
    let late = NOW + 700_000;
    // reads fall back to the anonymous view
    let feed = fetch_posts(&db, Some(token.as_str()), late, SECRET);
    assert_eq!(feed.status, 200);
    assert!(!feed.data.unwrap()[0].has_this_user_liked);
    // writes are refused
    let r = publish_post(
        &mut db,
        &PostData {
            text: Some(String::from("too late")),
            image: None,
        },
        Some(token.as_str()),
        late,
        2_000,
        SECRET,
    );
    assert_eq!(r.status, 403);
    assert_eq!(like(&mut db, Some(token.as_str()), &LikeInfo { post_id }, late, SECRET), 400);
    assert_eq!(get_data(&db, Some(token.as_str()), late, SECRET).status, 403);
    assert_eq!(db.posts.len(), 1);
}
