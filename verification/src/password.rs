//! Password hashing and verification, through Argon2.
//!
//! What a hash looks like is the hashing crate's business; the library
//! names the verification relation `argon2_verifies` and states of
//! `hash_password` only that its output verifies against the password it
//! was derived from — the round trip the crate documents.

use vstd::prelude::*;

verus! {

/// Whether Argon2 verification of `password` against the PHC string `hash`
/// succeeds.  Deterministic: the salt and parameters are read back out of
/// the hash string itself.
pub uninterp spec fn argon2_verifies(hash: Seq<char>, password: Seq<char>) -> bool;

/// Whether `password` matches the stored PHC hash string `hash`.
/// Relies on argon2's `PasswordVerifier::verify_password`, which parses
/// the PHC string (failing verification when it is malformed) and
/// recomputes the hash with the parameters and salt it carries.
#[verifier::external_body]
pub fn verify_password(hash: &str, password: &str) -> (r: bool)
    ensures
        r == argon2_verifies(hash@, password@),
{
    <argon2::Argon2 as argon2::PasswordVerifier<str>>::verify_password(
        &argon2::Argon2::default(),
        password.as_bytes(),
        hash,
    ).is_ok()
}

/// Hashes a password to a PHC string with a fresh random salt.
/// Relies on argon2's `PasswordHasher::hash_password`; its documentation
/// shows that the returned string verifies against the same password.
/// The salt is random, so nothing else is promised of the string.
#[verifier::external_body]
pub fn hash_password(password: &str) -> (r: Result<String, String>)
    ensures
        match r {
            Ok(h) => argon2_verifies(h@, password@),
            Err(_) => true,
        },
{
    match <argon2::Argon2 as argon2::PasswordHasher<argon2::PasswordHash>>::hash_password(
        &argon2::Argon2::default(),
        password.as_bytes(),
    ) {
        Ok(h) => Ok(h.to_string()),
        Err(e) => Err(format!("{}", e)),
    }
}

} // verus!
