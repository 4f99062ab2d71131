//! The password hashing primitive, treated as an opaque digest service:
//! `hash` produces a salted digest string, `check` decides acceptance.

use vstd::prelude::*;
use argon2::password_hash::{PasswordHasher, SaltString};
use argon2::{Argon2, PasswordHash, PasswordVerifier};
use rand_core::OsRng;
use crate::ryz::err::Error;
use crate::ryz::res::Res;

verus! {

/// Whether the digest service accepts the password against the digest
/// string: a function of the two strings alone.
pub uninterp spec fn digest_matches(password: Seq<char>, digest: Seq<char>) -> bool;

/// Relies on argon2's `Argon2::default().hash_password` with a fresh OsRng
/// salt: on success the produced digest string is accepted by
/// `verify_password` for the same password. The digest embeds the random
/// salt, so nothing more is said of it. Failure is surfaced as the
/// library's `hash_err`. (`SaltString::generate` aborts only if the
/// operating system's randomness source fails, an environmental
/// condition, not one of the input.)
#[verifier::external_body]
pub fn hash_password(password: &String) -> (r: Res<String>)
    ensures
        r matches Ok(d) ==> digest_matches(password@, d@),
        r matches Err(e) ==> e.code@ == "hash_err"@,
{
    let salt = SaltString::generate(&mut OsRng);
    match Argon2::default().hash_password(password.as_bytes(), &salt) {
        Ok(h) => Ok(h.to_string()),
        Err(_) => Err(Error { code: "hash_err".to_owned(), msg: "cannot hash password".to_owned() }),
    }
}

/// Relies on argon2's `PasswordHash::new` and `verify_password`: acceptance
/// is recomputed from the password and the digest string alone, so it is a
/// function of the two; a digest that does not parse is rejected.
#[verifier::external_body]
pub fn check_password(password: &String, hpassword: &String) -> (r: bool)
    ensures
        r == digest_matches(password@, hpassword@),
{
    match PasswordHash::new(hpassword.as_str()) {
        Ok(parsed) => Argon2::default().verify_password(password.as_bytes(), &parsed).is_ok(),
        Err(_) => false,
    }
}

} // verus!
