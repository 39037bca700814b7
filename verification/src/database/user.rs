//! The registration form: the four fields a new account is created from.

use vstd::prelude::*;

verus! {

/// A registration request: display name, handle, email and password (the
/// password field holds the plaintext on arrival and the encoded hash
/// once the account is stored).
pub struct User {
    pub user_name: String,
    pub user_at: String,
    pub email: String,
    pub password: String,
}

/// Mathematical view of a registration request.
pub struct UserFormView {
    pub user_name: Seq<char>,
    pub user_at: Seq<char>,
    pub email: Seq<char>,
    pub password: Seq<char>,
}

impl View for User {
    type V = UserFormView;

    open spec fn view(&self) -> UserFormView {
        UserFormView {
            user_name: self.user_name@,
            user_at: self.user_at@,
            email: self.email@,
            password: self.password@,
        }
    }
}

impl Clone for User {
    fn clone(&self) -> (r: Self)
        ensures
            r@ == self@,
    {
        User {
            user_name: self.user_name.clone(),
            user_at: self.user_at.clone(),
            email: self.email.clone(),
            password: self.password.clone(),
        }
    }
}

} // verus!
