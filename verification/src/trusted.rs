//! The trusted boundary: every call the library makes into another crate
//! lives here, behind a wrapper whose contract states what the call's own
//! documentation promises and nothing more. Verified code never touches
//! the outside crates except through these.
use vstd::prelude::*;

use rand::{Rng, SeedableRng};

use crate::dates::{Date, DateTime, Time, datetime_valid, days_in_month};
use crate::text::{is_digit_char, lower_code};

verus! {

/// `serde_json::Value` carried opaquely through records: the library never
/// looks inside a JSON value, it only stores and returns them.
#[verifier::external_type_specification]
#[verifier::external_body]
pub struct ExJsonValue(serde_json::Value);

/// Relies on the derived `Clone` of `serde_json::Value`: a deep copy equal
/// to the original value.
pub assume_specification[ <serde_json::Value as Clone>::clone ](v: &serde_json::Value) -> (r:
    serde_json::Value)
    ensures
        r == *v,
;

/// Relies on `uuid::Uuid::now_v7` and the `Display` of `Uuid`: the
/// hyphenated textual form of a UUID is 36 characters.
#[verifier::external_body]
pub fn fresh_public_id() -> (r: String)
    ensures
        r@.len() == 36,
{
    uuid::Uuid::now_v7().to_string()
}

/// Relies on `time::OffsetDateTime::now_utc` and its component accessors:
/// the current moment in UTC as civil parts `(year, month, day, hour,
/// minute, second)`. `time` documents the year within plus or minus 9999
/// and every component a real calendar value.
#[verifier::external_body]
fn now_utc_parts() -> (r: (i32, u8, u8, u8, u8, u8))
    ensures
        -9999 <= r.0 <= 9999,
        1 <= r.1 <= 12,
        1 <= r.2 && r.2 as int <= days_in_month(r.0 as int, r.1 as int),
        r.3 <= 23,
        r.4 <= 59,
        r.5 <= 59,
{
    let t = time::OffsetDateTime::now_utc();
    (t.year(), u8::from(t.month()), t.day(), t.hour(), t.minute(), t.second())
}

/// The current moment in UTC as a valid calendar value. A moment before
/// year zero cannot be represented and falls back to the epoch date.
pub fn now_datetime() -> (r: DateTime)
    ensures
        datetime_valid(r),
{
    let (year, month, day, hour, minute, second) = now_utc_parts();
    if year >= 0 {
        DateTime {
            date: Date { year: year as u16, month, day },
            time: Time { hour, minute, second },
        }
    } else {
        DateTime {
            date: Date { year: 1970, month: 1, day: 1 },
            time: Time { hour: 0, minute: 0, second: 0 },
        }
    }
}

/// Whether `url::Url::parse` accepts the text: parsing takes no input
/// but the text, so acceptance is a function of the text alone.
pub uninterp spec fn url_ok(s: Seq<char>) -> bool;

/// What `url::Url::parse` followed by `Url::as_str` yields for an accepted
/// input: the parsed URL's serialization, a function of the text alone.
pub uninterp spec fn url_norm_of(s: Seq<char>) -> Seq<char>;

/// Relies on `url::Url::parse` and `Url::as_str`: exactly the accepted
/// inputs yield a result, the URL's normalized serialization.
#[verifier::external_body]
pub(crate) fn parse_url(s: &str) -> (r: Option<String>)
    ensures
        (r is Some) <==> url_ok(s@),
        r matches Some(u) ==> u@ == url_norm_of(s@),
{
    match url::Url::parse(s) {
        Ok(u) => Some(u.as_str().to_owned()),
        Err(_) => None,
    }
}

/// Relies on `rand_hc::Hc128Rng::from_entropy` and `rand`'s `Alphanumeric`
/// distribution: `n` characters drawn from `a`-`z`, `A`-`Z` and `0`-`9`.
#[verifier::external_body]
pub fn gen_sample_alphanumeric(n: usize) -> (r: String)
    ensures
        r@.len() == n,
        forall|i: int|
            0 <= i < r@.len() ==> is_digit_char(#[trigger] r@[i]) || (97 <= lower_code(r@[i])
                <= 122),
{
    let rng = rand_hc::Hc128Rng::from_entropy();
    rng.sample_iter(rand::distributions::Alphanumeric).take(n).map(char::from).collect()
}

/// Relies on `time::OffsetDateTime::now_utc` and `unix_timestamp`: the
/// current moment as whole seconds since the Unix epoch.
#[verifier::external_body]
pub(crate) fn now_unix_seconds() -> (r: i64) {
    time::OffsetDateTime::now_utc().unix_timestamp()
}

} // verus!
