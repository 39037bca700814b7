//! The route handlers: each one runs the same pipeline as the HTTP layer
//! it serves — read the session cookie, validate the token, validate the
//! request fields, re-check the stored identity, perform the store
//! operation and map the outcome to a status code.

pub mod auth;
pub mod change;
pub mod types;
pub mod user;
pub mod user_get;
