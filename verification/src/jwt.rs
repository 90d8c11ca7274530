//! Session tokens: JSON Web Tokens signed with HMAC-SHA256 that carry the
//! user's e-mail for one hour.

use vstd::prelude::*;

verus! {

/// How long a token stays valid, in seconds.
pub const TOKEN_LIFETIME: u64 = 3600;

/// The claims of a session token: who it is for, when it was issued and
/// when it expires, both in seconds since the Unix epoch.
pub struct Claims {
    pub email: String,
    pub iat: u64,
    pub exp: u64,
}

impl Claims {
    /// The claims of a token issued to `email` at time `now`; it expires
    /// one hour later.
    pub fn issue(email: &str, now: u64) -> (r: Claims)
        requires
            now <= u64::MAX - TOKEN_LIFETIME,
        ensures
            r.email@ == email@,
            r.iat == now,
            r.exp == now + TOKEN_LIFETIME,
            r.exp == now + 3600,
    {
        Claims { email: String::from_str(email), iat: now, exp: now + TOKEN_LIFETIME }
    }
}

#[verifier::external_type_specification]
#[verifier::external_body]
pub struct ExJwtError(jsonwebtoken::errors::Error);

/// The compact form of the HS256 token whose claims are the JSON object
/// `{"email":…,"iat":…,"exp":…}` (in this order), signed with `secret`.
pub uninterp spec fn hs256_token(email: Seq<char>, iat: u64, exp: u64, secret: Seq<u8>) -> Seq<char>;

/// Encodes a token with `jsonwebtoken::encode`, under the header
/// `Header::new(Algorithm::HS256)` and the key
/// `EncodingKey::from_secret(secret)`, the claims being a JSON object
/// with the fields `email`, `iat` and `exp` in this order. Claimed: the
/// encoding succeeds, and the token is a function of the claims and the
/// secret alone, named `hs256_token`. Success is what the source of
/// `encode` (version 9) shows for these arguments: the key's family (HMAC,
/// from `from_secret`) is the family of HS256; the header and a JSON object
/// of a string and two integers serialise without error; and signing with
/// HS256 always returns `Ok`. Also claimed: the token decodes
/// (`decode_hs256`) with the same secret to these claims, as the source of
/// `decode` shows: the signature verifies with the same HMAC key, the
/// claims object carries `exp`, and no other claim is validated.
#[verifier::external_body]
fn encode_hs256(email: &str, iat: u64, exp: u64, secret: &[u8]) -> (r: Result<
    String,
    jsonwebtoken::errors::Error,
>)
    ensures
        r is Ok,
        r matches Ok(t) ==> t@ == hs256_token(email@, iat, exp, secret@),
        r matches Ok(t) ==> hs256_claims(t@, secret@) == Some((email@, iat, exp)),
{
    let mut claims = serde_json::Map::new();
    claims.insert("email".to_string(), serde_json::Value::from(email));
    claims.insert("iat".to_string(), serde_json::Value::from(iat));
    claims.insert("exp".to_string(), serde_json::Value::from(exp));
    let header = jsonwebtoken::Header::new(jsonwebtoken::Algorithm::HS256);
    jsonwebtoken::encode(&header, &claims, &jsonwebtoken::EncodingKey::from_secret(secret))
}

/// Why a token could not be made.
#[derive(Debug, PartialEq, Eq, Structural)]
pub enum JwtError {
    /// The token encoder reported an error.
    Encoding,
}

/// A session token for `email`, issued at time `now` (seconds since the
/// Unix epoch) and valid for one hour, signed with `secret`. It is always
/// made.
pub fn generate_jwt(email: &str, secret: &[u8], now: u64) -> (r: Result<String, JwtError>)
    requires
        now <= u64::MAX - TOKEN_LIFETIME,
    ensures
        r is Ok,
        r matches Ok(t) ==> t@ == hs256_token(email@, now, (now + TOKEN_LIFETIME) as u64, secret@),
        r matches Ok(t) ==> hs256_claims(t@, secret@) == Some(
            (email@, now, (now + TOKEN_LIFETIME) as u64),
        ),
        r matches Ok(t) ==> hs256_claims(t@, secret@) == Some((email@, now, (now + 3600) as u64)),
{
    let claims = Claims::issue(email, now);
    match encode_hs256(claims.email.as_str(), claims.iat, claims.exp, secret) {
        Ok(token) => Ok(token),
        Err(_) => Err(JwtError::Encoding),
    }
}

/// How long past its expiry a token is still taken, in seconds (the default
/// leeway of `jsonwebtoken::Validation`).
pub const TOKEN_LEEWAY: u64 = 60;

/// The claims that an HS256 token carries where it verifies with `secret`:
/// the e-mail, the time of issue and the expiry; `None` where the token
/// does not verify, or its claims lack `exp`, or do not hold a string
/// `email` and whole numbers `iat` and `exp`.
pub uninterp spec fn hs256_claims(token: Seq<char>, secret: Seq<u8>) -> Option<(Seq<char>, u64, u64)>;

/// The view of decoded claims.
pub open spec fn claims_view(r: Option<(String, u64, u64)>) -> Option<(Seq<char>, u64, u64)> {
    match r {
        None => None,
        Some((e, iat, exp)) => Some((e@, iat, exp)),
    }
}

/// Decodes a token with `jsonwebtoken::decode` under
/// `Validation::new(Algorithm::HS256)` with `validate_exp` switched off and
/// the key `DecodingKey::from_secret(secret)`, the claims read as a JSON
/// object whose `email` is a string and whose `iat` and `exp` are whole
/// numbers (`Value::as_u64`). Claimed: with expiry not checked, the outcome
/// reads no clock and is a function of the token and the secret alone,
/// named `hs256_claims`.
#[verifier::external_body]
fn decode_hs256(token: &str, secret: &[u8]) -> (r: Option<(String, u64, u64)>)
    ensures
        claims_view(r) == hs256_claims(token@, secret@),
{
    let mut validation = jsonwebtoken::Validation::new(jsonwebtoken::Algorithm::HS256);
    validation.validate_exp = false;
    let key = jsonwebtoken::DecodingKey::from_secret(secret);
    let data = jsonwebtoken::decode::<serde_json::Map<String, serde_json::Value>>(token, &key, &validation);
    let claims = data.ok()?.claims;
    match (claims.get("email"), claims.get("iat").and_then(serde_json::Value::as_u64), claims.get("exp").and_then(serde_json::Value::as_u64)) {
        (Some(serde_json::Value::String(email)), Some(iat), Some(exp)) => Some((email.clone(), iat, exp)),
        _ => None,
    }
}

/// The e-mail a token gives at time `now`: that of its claims, unless it
/// expired more than the leeway before `now`.
pub open spec fn token_email(claims: Option<(Seq<char>, u64, u64)>, now: u64) -> Option<Seq<char>> {
    match claims {
        None => None,
        Some((email, _iat, exp)) => if exp + TOKEN_LEEWAY < now {
            None
        } else {
            Some(email)
        },
    }
}

/// The e-mail of the session token `token` at time `now` (seconds since the
/// Unix epoch): `None` where the token does not verify with `secret`, its
/// claims cannot be read, or it expired more than a minute before `now`.
pub fn get_email_from_jwt(token: &str, secret: &[u8], now: u64) -> (r: Option<String>)
    ensures
        match r {
            None => token_email(hs256_claims(token@, secret@), now) is None,
            Some(s) => token_email(hs256_claims(token@, secret@), now) == Some(s@),
        },
{
    match decode_hs256(token, secret) {
        None => None,
        Some((email, _iat, exp)) => if now >= TOKEN_LEEWAY && exp < now - TOKEN_LEEWAY {
            None
        } else {
            Some(email)
        },
    }
}

/// Law: a token issued at `iat` for one hour gives back its e-mail up to a
/// minute past its expiry (3660 seconds after issue), and nothing after
/// that.
pub proof fn law_token_round_trip(token: Seq<char>, secret: Seq<u8>, email: Seq<char>, iat: u64, now: u64)
    requires
        iat <= u64::MAX - TOKEN_LIFETIME,
        hs256_claims(token, secret) == Some((email, iat, (iat + TOKEN_LIFETIME) as u64)),
    ensures
        now <= iat + TOKEN_LIFETIME + TOKEN_LEEWAY ==> token_email(hs256_claims(token, secret), now)
            == Some(email),
        now > iat + TOKEN_LIFETIME + TOKEN_LEEWAY ==> token_email(hs256_claims(token, secret), now)
            is None,
        now <= iat + 3660 ==> token_email(hs256_claims(token, secret), now) == Some(email),
        now > iat + 3660 ==> token_email(hs256_claims(token, secret), now) is None,
{
}

} // verus!
