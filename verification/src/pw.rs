//! Password hashing at the library's edge.  A password is never stored:
//! only a PHC string — a self-describing encoding of algorithm, parameters,
//! salt and hash — and verification recomputes the hash from the candidate
//! password and the stored string.

use pbkdf2::Pbkdf2;
use pbkdf2::password_hash::rand_core::OsRng;
use pbkdf2::password_hash::{PasswordHash, PasswordHasher, PasswordVerifier, SaltString};
use vstd::prelude::*;

verus! {

/// Whether this password matches this PHC string.  Verification recomputes
/// a hash from exactly these two values, so the outcome depends on them
/// alone.
pub uninterp spec fn pw_verifies(password: Seq<char>, phc: Seq<char>) -> bool;

/// Relies on `pbkdf2::Pbkdf2::verify_password`, with
/// `password_hash::PasswordHash::new` parsing the stored PHC string:
/// deterministic in the password and the PHC string.
#[verifier::external_body]
pub fn verify_password(password: &String, phc: &String) -> (r: Result<(), ()>)
    ensures
        r is Ok <==> pw_verifies(password@, phc@),
{
    let parsed = match PasswordHash::new(phc.as_str()) {
        Ok(p) => p,
        Err(_) => {
            return Err(());
        },
    };
    match Pbkdf2.verify_password(password.as_bytes(), &parsed) {
        Ok(_) => Ok(()),
        Err(_) => Err(()),
    }
}

/// Relies on `pbkdf2::Pbkdf2::hash_password` with a freshly generated
/// random salt.  The salt makes the outcome differ between calls, so
/// nothing ties it to the inputs alone; what the password-hash API does
/// promise is that a produced PHC string verifies against the password it
/// was computed from.
#[verifier::external_body]
pub fn get_phc(user_password: String) -> (r: Result<String, ()>)
    ensures
        r matches Ok(phc) ==> pw_verifies(user_password@, phc@),
{
    let salt = SaltString::generate(&mut OsRng);
    match Pbkdf2.hash_password(user_password.as_bytes(), &salt) {
        Ok(phc) => Ok(phc.to_string()),
        Err(_) => Err(()),
    }
}

} // verus!
