//! The in-memory store: registration conflicts, the follow toggle and
//! its inverse, deletion cascades, posts, comments, likes and search.

use socialnet::database::{Database, DbError};
use socialnet::database::user::User;

fn form(name: &str, at: &str, email: &str) -> User {
    User {
        user_name: String::from(name),
        user_at: String::from(at),
        email: String::from(email),
        password: String::from("hash-placeholder"),
    }
}

fn two_users() -> Database {
    let mut db = Database::new();
    db.make_user(&form("Ana", "ana", "ana@example.com")).unwrap();
    db.make_user(&form("Bob", "bob", "bob@example.com")).unwrap();
    db
}

fn row<'a>(db: &'a Database, at: &str) -> &'a socialnet::database::UserRow {
    db.users.iter().find(|u| u.user_at == at).unwrap()
}

#[test]
fn duplicate_handle_conflicts_on_second_attempt() {
    let mut db = Database::new();
    assert!(db.make_user(&form("Ana", "ana", "ana@example.com")).is_ok());
    let e = db
        .make_user(&form("Other", "ana", "other@example.com"))
        .unwrap_err();
    assert_eq!(e.status, 400);
    assert_eq!(e.message, "Username already in use");
    assert_eq!(db.users.len(), 1);
}

#[test]
fn duplicate_email_conflicts_on_second_attempt() {
    let mut db = Database::new();
    assert!(db.make_user(&form("Ana", "ana", "ana@example.com")).is_ok());
    let e = db
        .make_user(&form("Other", "other", "ana@example.com"))
        .unwrap_err();
    assert_eq!(e.status, 400);
    assert_eq!(e.message, "Email already in use");
    assert_eq!(db.users.len(), 1);
}

#[test]
fn follow_then_unfollow_restores_both_sides() {
    let mut db = two_users();
    let ana_id = row(&db, "ana").id;
    let bob_id = row(&db, "bob").id;
    // bob follows ana
    db.follow_user(ana_id, bob_id).unwrap();
    assert_eq!(row(&db, "ana").followers, vec![bob_id]);
    assert_eq!(row(&db, "ana").followers_count, 1);
    assert_eq!(row(&db, "bob").following, vec![ana_id]);
    assert_eq!(row(&db, "bob").following_count, 1);
    // and stops
    db.unfollow_user(ana_id, bob_id).unwrap();
    assert!(row(&db, "ana").followers.is_empty());
    assert_eq!(row(&db, "ana").followers_count, 0);
    assert!(row(&db, "bob").following.is_empty());
    assert_eq!(row(&db, "bob").following_count, 0);
    // counts equal list lengths throughout
    for u in &db.users {
        assert_eq!(u.followers_count as usize, u.followers.len());
        assert_eq!(u.following_count as usize, u.following.len());
    }
}

#[test]
fn follow_rejects_self_duplicates_and_missing() {
    let mut db = two_users();
    let ana_id = row(&db, "ana").id;
    let bob_id = row(&db, "bob").id;
    assert_eq!(db.follow_user(ana_id, ana_id), Err(DbError::Conflict));
    db.follow_user(ana_id, bob_id).unwrap();
    assert_eq!(db.follow_user(ana_id, bob_id), Err(DbError::Conflict));
    assert_eq!(db.follow_user(999, bob_id), Err(DbError::NotFound));
    assert_eq!(db.unfollow_user(bob_id, ana_id), Err(DbError::Conflict));
}

#[test]
fn deleting_an_account_unlinks_it_everywhere() {
    let mut db = two_users();
    db.make_user(&form("Cyn", "cyn", "cyn@example.com")).unwrap();
    let ana_id = row(&db, "ana").id;
    let bob_id = row(&db, "bob").id;
    let cyn_id = row(&db, "cyn").id;
    db.follow_user(ana_id, bob_id).unwrap();
    db.follow_user(bob_id, ana_id).unwrap();
    db.follow_user(cyn_id, ana_id).unwrap();
    db.follow_user(cyn_id, bob_id).unwrap();
    db.delete_user("ana@example.com").unwrap();
    assert_eq!(db.users.len(), 2);
    assert!(!db.user_exists("ana"));
    assert!(row(&db, "bob").followers.is_empty());
    assert_eq!(row(&db, "bob").followers_count, 0);
    assert_eq!(row(&db, "cyn").followers, vec![bob_id]);
    for u in &db.users {
        assert!(!u.followers.contains(&ana_id));
        assert!(!u.following.contains(&ana_id));
        assert_eq!(u.followers_count as usize, u.followers.len());
    }
    assert_eq!(db.delete_user("ana@example.com"), Err(DbError::NotFound));
}

#[test]
fn lookups_fail_on_missing_rows() {
    let db = Database::new();
    assert_eq!(db.get_email_from_user_at("ana"), Err(DbError::NotFound));
    assert_eq!(db.get_id_from_email("a@b.cc"), Err(DbError::NotFound));
    assert_eq!(db.get_email_from_id(1), Err(DbError::NotFound));
    assert!(db.get_client_data("a@b.cc").is_err());
}

#[test]
fn identity_changes_guard_uniqueness() {
    let mut db = two_users();
    assert_eq!(
        db.change_user_at("ana@example.com", "bob"),
        Err(DbError::Conflict)
    );
    assert_eq!(
        db.change_email("ana@example.com", "bob@example.com"),
        Err(DbError::Conflict)
    );
    db.change_user_at("ana@example.com", "ana2").unwrap();
    assert!(db.user_exists("ana2"));
    assert!(!db.user_exists("ana"));
    db.change_email("ana@example.com", "ana2@example.com").unwrap();
    assert!(db.email_exists("ana2@example.com"));
    assert!(!db.email_exists("ana@example.com"));
}

#[test]
fn passwords_verify_against_the_stored_hash() {
    let mut db = Database::new();
    let hash = socialnet::auth::hash::hash_str("pass-word-1").unwrap();
    let mut f = form("Ana", "ana", "ana@example.com");
    f.password = hash;
    db.make_user(&f).unwrap();
    assert!(db.verify_password("ana@example.com", "pass-word-1"));
    assert!(!db.verify_password("ana@example.com", "pass-word-2"));
    assert!(!db.verify_password("missing@example.com", "pass-word-1"));
}

#[test]
fn posts_come_back_newest_first() {
    let mut db = two_users();
    let ana_id = row(&db, "ana").id;
    db.post(ana_id, "oldest", &None, 10).unwrap();
    db.post(ana_id, "newest", &None, 30).unwrap();
    db.post(ana_id, "middle", &Some(String::from("img")), 20).unwrap();
    let posts = db.get_posts().unwrap();
    assert_eq!(posts.len(), 3);
    assert_eq!(posts[0].text.as_deref(), Some("newest"));
    assert_eq!(posts[0].unix_time, 30);
    assert_eq!(posts[1].text.as_deref(), Some("middle"));
    assert_eq!(posts[1].image.as_deref(), Some("img"));
    assert_eq!(posts[2].text.as_deref(), Some("oldest"));
    assert_eq!(db.post(999, "t", &None, 1), Err(DbError::NotFound));
}

#[test]
fn comments_count_on_their_post() {
    let mut db = two_users();
    let ana_id = row(&db, "ana").id;
    let bob_id = row(&db, "bob").id;
    db.post(ana_id, "a post", &None, 10).unwrap();
    let post_id = db.posts[0].post_id;
    db.comment(bob_id, "first!", &None, 11, post_id).unwrap();
    db.comment(ana_id, "thanks", &None, 12, post_id).unwrap();
    assert_eq!(db.posts[0].comments_count, 2);
    let comments = db.get_comments_from_post(post_id).unwrap();
    assert_eq!(comments.len(), 2);
    assert_eq!(comments[0].text.as_deref(), Some("thanks"));
    assert_eq!(comments[1].text.as_deref(), Some("first!"));
    let comment_id = db.posts[1].post_id;
    db.delete_comment(comment_id, post_id).unwrap();
    assert_eq!(db.posts[0].comments_count, 1);
    assert_eq!(
        db.delete_comment(comment_id, post_id),
        Err(DbError::NotFound)
    );
}

#[test]
fn likes_toggle_and_count() {
    let mut db = two_users();
    let ana_id = row(&db, "ana").id;
    let bob_id = row(&db, "bob").id;
    db.post(ana_id, "a post", &None, 10).unwrap();
    let post_id = db.posts[0].post_id;
    assert_eq!(db.likes_list_contains(post_id, bob_id), Ok(false));
    db.like(bob_id, post_id).unwrap();
    assert_eq!(db.likes_list_contains(post_id, bob_id), Ok(true));
    assert_eq!(db.posts[0].likes_count, 1);
    assert_eq!(db.like(bob_id, post_id), Err(DbError::Conflict));
    db.dislike(bob_id, post_id).unwrap();
    assert_eq!(db.posts[0].likes_count, 0);
    assert_eq!(db.dislike(bob_id, post_id), Err(DbError::Conflict));
    // a top-level post is no comment
    assert!(db.comment_likes_list_contains(post_id, bob_id).is_err());
    assert_eq!(db.like_comment(bob_id, post_id), Err(DbError::NotFound));
}

#[test]
fn search_matches_handle_or_name_in_store_order() {
    let mut db = Database::new();
    db.make_user(&form("Ana Banana", "ana", "ana@example.com")).unwrap();
    db.make_user(&form("Bob", "bob", "bob@example.com")).unwrap();
    db.make_user(&form("Cyn", "banania", "cyn@example.com")).unwrap();
    let hits = db.query_like("an").unwrap();
    assert_eq!(hits.len(), 2);
    assert_eq!(hits[0].userat, "ana");
    assert_eq!(hits[1].userat, "banania");
    assert!(db.query_like("zzz").unwrap().is_empty());
}

#[test]
fn follow_listings_mirror_the_lists() {
    let mut db = two_users();
    let ana_id = row(&db, "ana").id;
    let bob_id = row(&db, "bob").id;
    db.follow_user(ana_id, bob_id).unwrap();
    db.change_icon("bob@example.com", "bob-icon").unwrap();
    let followers = db.get_followers_list("ana@example.com").unwrap();
    assert_eq!(followers.len(), 1);
    assert_eq!(followers[0].userat, "bob");
    assert_eq!(followers[0].username, "Bob");
    assert_eq!(followers[0].icon.as_deref(), Some("bob-icon"));
    let following = db.get_following_list("bob@example.com").unwrap();
    assert_eq!(following.len(), 1);
    assert_eq!(following[0].userat, "ana");
    assert!(db.get_following_list("ana@example.com").unwrap().is_empty());
}

#[test]
fn profile_field_updates_stick() {
    let mut db = two_users();
    db.change_bio("ana@example.com", "hello there").unwrap();
    db.change_username("ana@example.com", "Ana Maria").unwrap();
    db.change_password("ana@example.com", "new-hash").unwrap();
    let ana = row(&db, "ana");
    assert_eq!(ana.bio.as_deref(), Some("hello there"));
    assert_eq!(ana.user_name, "Ana Maria");
    assert_eq!(ana.password, "new-hash");
    // updates aimed at no row change nothing and still succeed
    db.change_bio("missing@example.com", "x").unwrap();
    assert_eq!(db.users.len(), 2);
}

#[test]
fn credentials_check_matches_all_three_fields() {
    let db = two_users();
    let ana = row(&db, "ana");
    let good = socialnet::auth::Sub {
        id: ana.id,
        user_at: String::from("ana"),
        email: String::from("ana@example.com"),
    };
    assert!(db.user_has_credentials(&good));
    let stale = socialnet::auth::Sub {
        id: ana.id + 40,
        user_at: String::from("ana"),
        email: String::from("ana@example.com"),
    };
    assert!(!db.user_has_credentials(&stale));
}

#[test]
fn relationship_snapshot_mirrors_the_lists() {
    let mut db = two_users();
    let ana_id = row(&db, "ana").id;
    let bob_id = row(&db, "bob").id;
    db.follow_user(ana_id, bob_id).unwrap();
    let snap = db.following_db_data("ana@example.com").unwrap();
    assert_eq!(snap.followers, Some(vec![bob_id]));
    assert_eq!(snap.following, Some(vec![]));
    assert!(db.following_db_data("missing@example.com").is_err());
}
