//! The session guards: a per-request state machine deciding, from the
//! cookie a request carried, whether it is unauthorized, forbidden, or an
//! authenticated principal.  The claims are trusted only because the
//! token's signature was already verified; no second storage round-trip
//! re-checks the role, so a server-side role change takes effect only once
//! the existing token expires.

use vstd::prelude::*;

use crate::models::JWTClaims;

verus! {

/// An authenticated administrator: the guard admits only role id 1.
#[derive(Debug, PartialEq, Clone)]
pub struct Level1 {
    pub role_id: i32,
}

/// Any authenticated session, whatever its role.
#[derive(Debug, PartialEq, Clone)]
pub struct ValidSession {
    pub id: i32,
}

/// What a guard decides for one request.
#[derive(Debug, PartialEq, Clone)]
pub enum Outcome<T> {
    Success(T),
    Forbidden,
    Unauthorized,
}

/// The per-request session state machine: no credential, or one that did
/// not validate, is unauthorized; a valid credential short of the required
/// role is forbidden; otherwise the claims pass through.
pub fn classify_session(validated: Option<JWTClaims>, required_role: Option<i32>) -> (r: Outcome<
    JWTClaims,
>)
    ensures
        validated is None ==> r is Unauthorized,
        validated matches Some(c) ==> match required_role {
            None => r == Outcome::Success(c),
            Some(req) => if c.role_id == req {
                r == Outcome::Success(c)
            } else {
                r == Outcome::<JWTClaims>::Forbidden
            },
        },
{
    match validated {
        None => Outcome::Unauthorized,
        Some(c) => match required_role {
            None => Outcome::Success(c),
            Some(req) => {
                if c.role_id == req {
                    Outcome::Success(c)
                } else {
                    Outcome::Forbidden
                }
            },
        },
    }
}

impl Level1 {
    /// Gates a request on an administrator session: the token from the
    /// `jwt` cookie must validate and carry role id 1.  A missing cookie
    /// is unauthorized whatever the secret, a token whose signature does
    /// not verify fails closed, and a successful outcome carries role id 1
    /// taken from the signed claims.
    pub fn from_request(cookie: Option<&String>, secret: &[u8]) -> (r: Outcome<Level1>)
        ensures
            cookie is None ==> r is Unauthorized,
            cookie matches Some(t) ==> (crate::jwt::signed_claims_of(t@, secret@) is None ==> r
                is Unauthorized),
            r matches Outcome::Success(l) ==> (l.role_id == 1 && (cookie matches Some(t) && (
            crate::jwt::signed_claims_of(t@, secret@) matches Some(cl) && cl.2 == 1))),
    {
        let validated = match cookie {
            None => None,
            Some(tok) => match crate::jwt::validate_jwt(tok.as_str(), secret) {
                Ok(claims) => Some(claims),
                Err(_) => None,
            },
        };
        match classify_session(validated, Some(1)) {
            Outcome::Success(c) => Outcome::Success(Level1 { role_id: c.role_id }),
            Outcome::Forbidden => Outcome::Forbidden,
            Outcome::Unauthorized => Outcome::Unauthorized,
        }
    }
}

impl ValidSession {
    /// Gates a request on any valid session: the token from the `jwt`
    /// cookie must validate; the principal keeps the user id of the signed
    /// claims.  A missing cookie is unauthorized, a token whose signature
    /// does not verify fails closed, and this guard never answers
    /// forbidden.
    pub fn from_request(cookie: Option<&String>, secret: &[u8]) -> (r: Outcome<ValidSession>)
        ensures
            cookie is None ==> r is Unauthorized,
            !(r is Forbidden),
            cookie matches Some(t) ==> (crate::jwt::signed_claims_of(t@, secret@) is None ==> r
                is Unauthorized),
            r matches Outcome::Success(s) ==> (cookie matches Some(t) && (
            crate::jwt::signed_claims_of(t@, secret@) matches Some(cl) && cl.0 == s.id)),
    {
        let validated = match cookie {
            None => None,
            Some(tok) => match crate::jwt::validate_jwt(tok.as_str(), secret) {
                Ok(claims) => Some(claims),
                Err(_) => None,
            },
        };
        match classify_session(validated, None) {
            Outcome::Success(c) => Outcome::Success(ValidSession { id: c.user_id }),
            Outcome::Forbidden => Outcome::Unauthorized,
            Outcome::Unauthorized => Outcome::Unauthorized,
        }
    }
}

} // verus!
