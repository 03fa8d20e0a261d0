//! Access-token policy: the times a token is issued with, when a validated
//! token is cached and reused, the cache key of a token, and the subject id
//! carried by its claims. (Signing and verifying the token is done by the
//! JWT library, outside this library.)

use vstd::prelude::*;
use vstd::string::StringSliceAdditionalSpecFns;
use crate::hashing::{blake3_bytes, blake3_digest};

verus! {

/// Validated tokens are reused for at most this long (seconds).
pub const VALIDATION_CACHE_TTL_SECS: u64 = 30;

/// Validated tokens kept at most.
pub const VALIDATION_CACHE_MAX_ENTRIES: u64 = 50_000;

/// What the UUID text of a subject denotes, when it is one: the 128-bit
/// value of `uuid::Uuid::parse_str` (a function of the text alone).
pub uninterp spec fn uuid_value(text: Seq<char>) -> Option<u128>;

/// `uuid::Uuid::parse_str(text)`, as its 128-bit big-endian value.
#[verifier::external_body]
pub(crate) fn parse_uuid(text: &str) -> (r: Option<u128>)
    ensures
        r == uuid_value(text@),
{
    match uuid::Uuid::parse_str(text) {
        Ok(u) => Some(u.as_u128()),
        Err(_) => None,
    }
}

/// The id a file or user id text names, when it is a UUID.
pub fn parse_id(text: &str) -> (r: Option<u128>)
    ensures
        r == uuid_value(text@),
{
    parse_uuid(text)
}

/// The subject id of a token's claims: its `sub` as a UUID, the nil UUID
/// when it is not one.
pub fn subject_id(sub: &str) -> (id: u128)
    ensures
        id == match uuid_value(sub@) {
            Some(u) => u,
            None => 0,
        },
{
    match parse_uuid(sub) {
        Some(u) => u,
        None => 0,
    }
}

/// Issued-at and expiry of an access token issued at `now`.
pub fn access_token_times(now: i64, expiry_secs: i64) -> (r: (i64, i64))
    requires
        i64::MIN <= now + expiry_secs <= i64::MAX,
    ensures
        r.0 == now,
        r.1 == now + expiry_secs,
{
    (now, now + expiry_secs)
}

/// A token expiring at `exp` has not expired at `now`.
pub open spec fn unexpired(exp: i64, now: i64) -> bool {
    exp > now
}

/// A cached validation is reused only while the token has not expired.
pub fn cached_claims_usable(exp: i64, now: i64) -> (b: bool)
    ensures
        b == unexpired(exp, now),
{
    exp > now
}

/// A fresh validation is cached only when the token outlives the cache
/// entry.
pub fn cache_validation(exp: i64, now: i64) -> (b: bool)
    ensures
        b == (exp - now > VALIDATION_CACHE_TTL_SECS),
{
    (exp as i128) - (now as i128) > 30
}

/// The first step of validating a token, from the expiry of its cached
/// validation (if the cache holds one).
#[derive(Debug, Clone, Copy, PartialEq, Eq)]
pub enum CacheLookup {
    /// The cached claims are still valid: hand them out without decoding.
    Reuse,
    /// The cached token has expired since it was cached: drop the entry and
    /// decode the token afresh (which reports the expiry).
    EvictAndDecode,
    /// Nothing cached: decode the token.
    Decode,
}

pub open spec fn cache_lookup_of(cached_exp: Option<i64>, now: i64) -> CacheLookup {
    match cached_exp {
        Some(exp) => if unexpired(exp, now) {
            CacheLookup::Reuse
        } else {
            CacheLookup::EvictAndDecode
        },
        None => CacheLookup::Decode,
    }
}

pub fn cache_lookup(cached_exp: Option<i64>, now: i64) -> (r: CacheLookup)
    ensures
        r == cache_lookup_of(cached_exp, now),
{
    match cached_exp {
        Some(exp) => if cached_claims_usable(exp, now) {
            CacheLookup::Reuse
        } else {
            CacheLookup::EvictAndDecode
        },
        None => CacheLookup::Decode,
    }
}

/// Why a token was refused.
#[derive(Debug, Clone, PartialEq, Eq)]
pub enum TokenError {
    /// The token's expiry has passed.
    Expired,
    /// The token does not verify or does not parse; holds the reason.
    Invalid(String),
    /// Issuing a token failed; holds the reason.
    Internal(String),
}

/// After decoding, whether the outcome is cached: never a refusal, and an
/// accepted token (expiring at `exp`) only when it outlives the cache
/// entry.
pub fn cache_decoded(decoded: &Result<i64, TokenError>, now: i64) -> (store: bool)
    ensures
        store == match decoded {
            Ok(exp) => *exp - now > VALIDATION_CACHE_TTL_SECS,
            Err(_) => false,
        },
{
    match decoded {
        Ok(exp) => cache_validation(*exp, now),
        Err(_) => false,
    }
}

/// The validation-cache key of a token: the BLAKE3 hash of its text.
pub fn token_cache_key(token: &str) -> (k: [u8; 32])
    ensures
        k@ == blake3_bytes(token.spec_bytes()),
{
    blake3_digest(token.as_bytes())
}

/// Whole days of a refresh-token lifetime (rounded toward zero).
pub fn refresh_token_expiry_days(secs: i64) -> (d: i64)
    ensures
        secs >= 0 ==> d == secs / 86_400,
        secs < 0 ==> d == -((-secs) / 86_400),
{
    if secs >= 0 {
        secs / 86_400
    } else {
        let m: i128 = -(secs as i128);
        let q: i128 = m / 86_400;
        assert(q <= 106_751_991_167_301);
        (-q) as i64
    }
}

/// Expired tokens are never cached: a validation that is cached is one that
/// the cache would hand out again at that moment, and it stays usable for
/// at least the cache's time to live.
pub proof fn law_cached_validation_unexpired(exp: i64, now: i64)
    requires
        exp - now > VALIDATION_CACHE_TTL_SECS,
    ensures
        unexpired(exp, now),
        forall|later: i64| now <= later <= now + VALIDATION_CACHE_TTL_SECS ==> #[trigger] unexpired(exp, later),
{
}

/// The validation cache hands out a cached validation only while its token
/// has not expired; an expired one is evicted and the token decoded again;
/// without a cached validation the token is always decoded.
pub proof fn law_cache_reuses_only_unexpired(cached_exp: Option<i64>, now: i64)
    ensures
        cache_lookup_of(cached_exp, now) == CacheLookup::Reuse <==> (cached_exp matches Some(e) && e > now),
        cache_lookup_of(cached_exp, now) == CacheLookup::EvictAndDecode <==> (cached_exp matches Some(e) && e
            <= now),
        cache_lookup_of(cached_exp, now) == CacheLookup::Decode <==> cached_exp is None,
{
}

} // verus!
