//! Session tokens at the library's edge: issuing a signed token for a
//! user's claims, and validating one that a request carried.  The token is
//! self-contained; no server-side state backs it.

use vstd::prelude::*;

use crate::models::JWTClaims;

verus! {

/// The compact token that signing these claim fields with this secret
/// produces.  HS256 signing is deterministic, so the outcome depends on
/// the claims and the secret alone.
pub uninterp spec fn jwt_of(
    user_id: int,
    email: Seq<char>,
    role_id: int,
    role: Seq<char>,
    exp: int,
    secret: Seq<u8>,
) -> Seq<char>;

/// Relies on `jsonwebtoken::encode` with the default HS256 header:
/// deterministic in the claims and the secret.
#[verifier::external_body]
fn encode_jwt(claims: &JWTClaims, secret: &[u8]) -> (r: Result<String, ()>)
    ensures
        r matches Ok(t) ==> t@ == jwt_of(
            claims.user_id as int,
            claims.email@,
            claims.role_id as int,
            claims.role@,
            claims.exp as int,
            secret@,
        ),
{
    let mut m = serde_json::Map::new();
    m.insert("user_id".to_string(), serde_json::Value::from(claims.user_id));
    m.insert("email".to_string(), serde_json::Value::from(claims.email.clone()));
    m.insert("role_id".to_string(), serde_json::Value::from(claims.role_id));
    m.insert("role".to_string(), serde_json::Value::from(claims.role.clone()));
    m.insert("exp".to_string(), serde_json::Value::from(claims.exp as u64));
    let key = jsonwebtoken::EncodingKey::from_secret(secret);
    jsonwebtoken::encode(&jsonwebtoken::Header::default(), &serde_json::Value::Object(m), &key)
        .map_err(|_| ())
}

#[verifier::external_type_specification]
#[verifier::external_body]
pub struct ExValue(serde_json::Value);

/// Relies on `serde_json::Value`'s accessors to read the claim fields out
/// of a decoded payload; a payload missing any field yields nothing.
#[verifier::external_body]
fn claims_of_value(v: &serde_json::Value) -> (r: Option<JWTClaims>) {
    let user_id = v.get("user_id").and_then(|x| x.as_i64())?;
    let email = v.get("email").and_then(|x| x.as_str())?;
    let role_id = v.get("role_id").and_then(|x| x.as_i64())?;
    let role = v.get("role").and_then(|x| x.as_str())?;
    let exp = v.get("exp").and_then(|x| x.as_u64())?;
    Some(JWTClaims { user_id: user_id as i32, email: email.to_string(), role_id: role_id as i32, role: role.to_string(), exp: exp as usize })
}

/// The claims a token carries when its HS256 signature verifies under the
/// secret — (user id, email, role id, role name, expiry) — or nothing when
/// the signature or the payload shape is invalid.  Signature verification
/// recomputes an HMAC from the token and the secret alone, so the outcome
/// depends on exactly those two; expiry plays no part here.
pub uninterp spec fn signed_claims_of(token: Seq<char>, secret: Seq<u8>) -> Option<
    (int, Seq<char>, int, Seq<char>, int),
>;

/// Relies on `jsonwebtoken::decode` with HS256 and expiry validation
/// switched off: the decode then reads no clock — it checks the signature
/// and the payload shape only, deterministically in token and secret.
#[verifier::external_body]
fn decode_signed(jwt: &str, secret: &[u8]) -> (r: Result<JWTClaims, ()>)
    ensures
        match r {
            Ok(c) => signed_claims_of(jwt@, secret@) == Some(
                (c.user_id as int, c.email@, c.role_id as int, c.role@, c.exp as int),
            ),
            Err(_) => signed_claims_of(jwt@, secret@) is None,
        },
{
    let mut validation = jsonwebtoken::Validation::new(jsonwebtoken::Algorithm::HS256);
    validation.validate_exp = false;
    let key = jsonwebtoken::DecodingKey::from_secret(secret);
    let data = match jsonwebtoken::decode::<serde_json::Value>(jwt, &key, &validation) {
        Ok(d) => d.claims,
        Err(_) => return Err(()),
    };
    claims_of_value(&data).ok_or(())
}

/// Validates a request's token: the trusted decode checks the signature
/// and payload shape, and the expiry is then compared against the clock in
/// verified code, so an expired or tampered token fails closed.  (The
/// expiry check is strict, without the decode library's default leeway.)
pub fn validate_jwt(jwt: &str, secret: &[u8]) -> (r: Result<JWTClaims, ()>)
    ensures
        signed_claims_of(jwt@, secret@) is None ==> r is Err,
        r matches Ok(c) ==> signed_claims_of(jwt@, secret@) == Some(
            (c.user_id as int, c.email@, c.role_id as int, c.role@, c.exp as int),
        ),
{
    let claims = match decode_signed(jwt, secret) {
        Ok(c) => c,
        Err(_) => {
            return Err(());
        },
    };
    let now = crate::dates::current_timestamp();
    if now < 0 {
        return Err(());
    }
    if (claims.exp as u64) <= (now as u64) {
        return Err(());
    }
    Ok(claims)
}

/// Issues a token for the given user, good for two hours from now.  The
/// expiry comes from the clock, so the token is pinned only up to it.
pub fn get_jwt(
    user_id: i32,
    user_email: String,
    role_id: i32,
    user_role: String,
    secret: &[u8],
) -> (r: Result<String, ()>)
    ensures
        r matches Ok(t) ==> exists|e: int|
            0 <= e && t@ == jwt_of(
                user_id as int,
                user_email@,
                role_id as int,
                user_role@,
                e,
                secret@,
            ),
{
    let now = crate::dates::current_timestamp();
    if now < 0 || now > i64::MAX - 7200 {
        return Err(());
    }
    let exp = now + 7200;
    let claims = JWTClaims {
        user_id,
        email: user_email,
        role_id,
        role: user_role,
        exp: exp as usize,
    };
    match encode_jwt(&claims, secret) {
        Ok(t) => {
            proof {
                assert(0 <= exp as usize as int);
                assert(t@ == jwt_of(
                    user_id as int,
                    claims.email@,
                    role_id as int,
                    claims.role@,
                    exp as usize as int,
                    secret@,
                ));
            }
            Ok(t)
        },
        Err(_) => Err(()),
    }
}

} // verus!
