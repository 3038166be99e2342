//! The two inputs that come from outside the board's own state: the current
//! time and fresh random ids. Both depend on the machine at the moment of
//! the call, so their contracts state only what holds of every outcome.
use vstd::prelude::*;

use crate::errors::AppError;

verus! {

/// The current time as chrono reads the system clock:
/// `DateTime::<Utc>::from(SystemTime::now())`, taken apart into whole
/// seconds since the Unix epoch (`DateTime::timestamp`) and the nanoseconds
/// past that second (`DateTime::timestamp_subsec_nanos`). chrono's
/// conversion takes the clock's distance from the epoch, negative for a
/// clock set before 1970, and always leaves the nanoseconds below one
/// second. Nothing else is stated: two calls may return any such values.
/// The conversion unwraps chrono's range check, which fails only for a
/// clock more than 262,000 years away from 1970; nothing about the
/// seconds is claimed.
#[verifier::external_body]
fn now_utc() -> (r: (i64, u32))
    ensures
        r.1 < 1_000_000_000,
{
    let now = chrono::DateTime::<chrono::Utc>::from(std::time::SystemTime::now());
    (now.timestamp(), now.timestamp_subsec_nanos())
}

/// The current time in nanoseconds since the Unix epoch (negative before
/// it).
pub(crate) fn now_nanos() -> i128 {
    let (secs, nanos) = now_utc();
    let s: i128 = secs as i128;
    assert(-9_223_372_036_854_775_808 * 1_000_000_000 <= s * 1_000_000_000 <= 9_223_372_036_854_775_807 * 1_000_000_000) by (nonlinear_arith)
        requires
            -9_223_372_036_854_775_808 <= s <= 9_223_372_036_854_775_807,
    ;
    s * 1_000_000_000 + nanos as i128
}

/// Sixteen random bytes from the operating system, through
/// `getrandom::fill`, or `None` when it reports a failure (getrandom makes
/// no promise about the buffer then, and it is dropped). Which bytes come
/// out is left open.
#[verifier::external_body]
fn random_bytes() -> (r: Option<[u8; 16]>) {
    let mut bytes = [0u8; 16];
    match getrandom::fill(&mut bytes) {
        Ok(()) => Some(bytes),
        Err(_) => None,
    }
}

/// The text of the version-4 uuid that `uuid::Builder::from_random_bytes`
/// makes of these bytes (it sets the version and variant bits), as its
/// `Display` impl writes it.
pub uninterp spec fn uuid_v4_text(bytes: Seq<u8>) -> Seq<char>;

/// `uuid::Builder::from_random_bytes(bytes).into_uuid()`, written by the
/// uuid's `Display` impl: the hyphenated lower-case form, which has 36
/// characters (uuid's `fmt.rs` writes 32 hex digits and 4 hyphens).
#[verifier::external_body]
fn uuid_v4_from_bytes(bytes: [u8; 16]) -> (s: String)
    ensures
        s@ == uuid_v4_text(bytes@),
        s@.len() == 36,
{
    uuid::Builder::from_random_bytes(bytes).into_uuid().to_string()
}

/// The id made of drawn random bytes, or an internal error when none could
/// be drawn.
pub fn id_from_random(bytes: Option<[u8; 16]>) -> (r: Result<String, AppError>)
    ensures
        match bytes {
            Some(b) => r is Ok && r->Ok_0@ == uuid_v4_text(b@) && r->Ok_0@.len() == 36,
            None => r is Err && r->Err_0@ is Internal,
        },
{
    match bytes {
        Some(b) => Ok(uuid_v4_from_bytes(b)),
        None => Err(AppError::Internal(String::from_str("no random bytes for a fresh id"))),
    }
}

/// A fresh random id, or an internal error when the operating system has
/// no randomness to give. Which id comes out is left open; two calls may
/// even return the same one.
pub(crate) fn fresh_id() -> (r: Result<String, AppError>)
    ensures
        r is Ok ==> r->Ok_0@.len() == 36,
        r is Err ==> r->Err_0@ is Internal,
{
    id_from_random(random_bytes())
}

} // verus!
