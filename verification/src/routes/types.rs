//! Request and response shapes shared by the route handlers.

use vstd::prelude::*;

verus! {

/// A plain status reply: an HTTP status code and a fixed message.
#[derive(Debug)]
pub struct Reply {
    pub status: u16,
    pub message: &'static str,
}

/// A reply from the handlers that may set a fresh session cookie: the
/// status, the message, and the new token when one was issued.
#[derive(Debug)]
pub struct AuthReply {
    pub status: u16,
    pub message: &'static str,
    pub token: Option<String>,
}

/// A status code together with a typed payload.
pub struct DataResponse<T> {
    pub status: u16,
    pub data: T,
}

/// Login form: email and password.
pub struct LoginData {
    pub email: String,
    pub password: String,
}

/// A profile as shown to a visitor.
pub struct ProfileData {
    pub username: String,
    pub user_at: String,
    pub followers_count: i32,
    pub following_count: i32,
    pub is_following: bool,
    pub is_himself: bool,
    pub bio: String,
    pub icon: String,
}

/// A profile update request: display name, bio and icon.
pub struct ProfileUpdate {
    pub username: String,
    pub bio: String,
    pub icon: String,
}

/// A password change request.
pub struct PasswordChangeData {
    pub current_password: String,
    pub new_password: String,
}

/// An email change request.
pub struct EmailChangeData {
    pub email: String,
}

/// A handle change request.
pub struct UserAtChangeData {
    pub user_at: String,
}

/// The caller's own account data, with the icon as text.
pub struct UpdatedClientUser {
    pub username: String,
    pub userat: String,
    pub followingcount: i32,
    pub followerscount: i32,
    pub bio: Option<String>,
    pub icon: String,
}

/// A stored account's public data.
pub struct ClientUser {
    pub username: String,
    pub userat: String,
    pub followingcount: i32,
    pub followerscount: i32,
    pub bio: Option<String>,
    pub icon: Option<String>,
}

/// One entry of a followers or following listing, with the icon as text.
pub struct UpdatedFollowData {
    pub user_at: String,
    pub username: String,
    pub icon: String,
}

} // verus!
