//! Credential hashing: a salted password hash and its verifier, delegated
//! to the Argon2 implementation behind trusted contracts.

use vstd::prelude::*;

verus! {

/// Whether an encoded Argon2 hash matches a password: decided by the
/// verifier of the hashing crate, a function of the two strings alone.
pub uninterp spec fn verifies(hash: Seq<char>, password: Seq<char>) -> bool;

/// Relies on rand::thread_rng and rand::RngCore::fill_bytes: fills the
/// buffer with random bytes. Nothing is known of the values; only the
/// length is stated.
#[verifier::external_body]
fn random_salt() -> (r: Vec<u8>)
    ensures
        r@.len() == 32,
{
    let mut salt = vec![0u8; 32];
    rand::RngCore::fill_bytes(&mut rand::thread_rng(), &mut salt);
    salt
}

/// Relies on argon2::hash_encoded (rust-argon2): hashes the password with
/// the salt under the default configuration. The encoded result carries
/// its salt and parameters, and argon2::verify_encoded accepts it together
/// with the password it was built from. The call fails only on a
/// parameter out of bounds: the default configuration is in bounds, so
/// with a salt of 8 to 2^32 - 1 bytes and a password below 2^32 bytes
/// (at most four per character) it succeeds.
#[verifier::external_body]
fn argon2_hash(password: &str, salt: &Vec<u8>) -> (r: Result<String, ()>)
    ensures
        r matches Ok(h) ==> verifies(h@, password@),
        8 <= salt@.len() <= 0xFFFFFFFF && password@.len() < 0x40000000 ==> r is Ok,
{
    match argon2::hash_encoded(password.as_bytes(), salt.as_slice(), &argon2::Config::default()) {
        Ok(h) => Ok(h),
        Err(_) => Err(()),
    }
}

/// Hashes a password with a fresh random salt: the returned encoded hash
/// verifies against exactly the password that was hashed, and hashing
/// succeeds for every password of fewer than 2^30 characters.
pub fn hash_str(s: &str) -> (r: Result<String, ()>)
    ensures
        r matches Ok(h) ==> verifies(h@, s@),
        s@.len() < 0x40000000 ==> r is Ok,
{
    let salt = random_salt();
    argon2_hash(s, &salt)
}

/// Relies on argon2::verify_encoded (rust-argon2): true exactly when the
/// encoded hash matches the password; a hash that cannot be decoded
/// matches nothing.
#[verifier::external_body]
pub fn compare_password(password: &str, hash: &str) -> (r: bool)
    ensures
        r == verifies(hash@, password@),
{
    match argon2::verify_encoded(hash, password.as_bytes()) {
        Ok(b) => b,
        Err(_) => false,
    }
}

} // verus!
