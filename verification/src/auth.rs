//! Session credentials: after a successful restore the signing secret has
//! been rotated, so a fresh signed token is minted for the resolved user,
//! valid for a fixed ninety-day window.

use vstd::prelude::*;

verus! {

/// The validity window of a freshly minted session credential, in seconds:
/// ninety days.
pub const SESSION_VALIDITY_SECONDS: u64 = 90 * 86400;

/// The signed token that HMAC-SHA256 signing yields for a subject, an
/// expiry timestamp, and a signing secret.
pub uninterp spec fn hs256_token_of(sub: Seq<char>, exp: u64, secret: Seq<u8>) -> Seq<char>;

/// Relies on jsonwebtoken's `encode` with its default header (HS256) and
/// `EncodingKey::from_secret`: the token is a function of the subject, the
/// expiry, and the secret alone, and this signing path cannot fail — the
/// key family always matches the header, HMAC accepts any key length, and
/// serializing the claims value cannot error.
#[verifier::external_body]
fn encode_hs256(sub: &str, exp: u64, secret: &[u8]) -> (r: String)
    ensures
        r@ == hs256_token_of(sub@, exp, secret@),
{
    let mut claims = serde_json::Map::new();
    claims.insert("sub".to_string(), serde_json::Value::String(sub.to_string()));
    claims.insert("exp".to_string(), serde_json::Value::Number(serde_json::Number::from(exp)));
    let key = jsonwebtoken::EncodingKey::from_secret(secret);
    let header = jsonwebtoken::Header::default();
    match jsonwebtoken::encode(&header, &serde_json::Value::Object(claims), &key) {
        Ok(t) => t,
        Err(_) => String::new(),
    }
}

/// Relies on chrono's `Utc::now`: the current Unix timestamp in seconds;
/// it depends on the clock, so nothing is promised of it.
#[verifier::external_body]
pub fn now_unix_seconds() -> (r: i64) {
    chrono::Utc::now().timestamp()
}

/// The expiry of a credential minted now: ninety days from `now`, or
/// nothing when that leaves the timestamp range.
pub fn token_expiry(now: i64) -> (r: Option<i64>)
    ensures
        match r {
            Some(e) => e == now + SESSION_VALIDITY_SECONDS,
            None => now + SESSION_VALIDITY_SECONDS > i64::MAX,
        },
{
    now.checked_add(7776000)
}

/// Mints the post-restore session credential for a user: the HS256 token
/// of the user, the ninety-day expiry, and the secret. `None` comes
/// exactly when the expiry leaves the timestamp range.
pub fn mint_session_token(username: &str, now: i64, secret: &[u8]) -> (r: Option<String>)
    ensures
        0 <= now + SESSION_VALIDITY_SECONDS <= i64::MAX ==> r is Some && r->0@ == hs256_token_of(
            username@,
            (now + SESSION_VALIDITY_SECONDS) as u64,
            secret@,
        ),
        (now + SESSION_VALIDITY_SECONDS > i64::MAX || now + SESSION_VALIDITY_SECONDS < 0)
            ==> r is None,
{
    let exp: i64 = match token_expiry(now) {
        Some(e) => e,
        None => {
            return None;
        },
    };
    if exp < 0 {
        return None;
    }
    Some(encode_hs256(username, exp as u64, secret))
}

} // verus!
