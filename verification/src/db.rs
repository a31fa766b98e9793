//! The ledger's rows (endpoints and per-request usage records), how a key
//! is shown, and the wall clock the rows are stamped with.
use vstd::prelude::*;

use std::time::Duration;
use std::time::SystemTime;

use crate::text::{chars_of, copy_range, extend_chars, string_from};

verus! {

broadcast use vstd::string::group_string_axioms;

/// An endpoint as shown to the panel: the key is masked.
#[derive(Debug, Clone)]
pub struct EndpointRow {
    pub id: String,
    pub name: String,
    pub base_url: String,
    pub key_masked: String,
    pub protocol: String,
    pub created_at: i64,
}

/// An endpoint with its raw API key (never sent to the panel).
#[derive(Debug, Clone)]
pub struct EndpointFull {
    pub id: String,
    pub name: String,
    pub base_url: String,
    pub api_key: String,
    pub protocol: String,
}

/// One proxied request as stored in the ledger.
#[derive(Debug, Clone)]
pub struct RequestRow {
    pub id: i64,
    pub endpoint_id: String,
    pub endpoint_name: String,
    pub base_url: String,
    pub model: Option<String>,
    pub protocol: String,
    pub path: Option<String>,
    pub started_at: i64,
    pub ttft_ms: Option<i64>,
    pub duration_ms: Option<i64>,
    pub http_status: Option<i64>,
    pub status: String,
    pub input_uncached: i64,
    pub cache_read: i64,
    pub cache_write: i64,
    pub output_tokens: i64,
    pub loop_alert: bool,
    pub error: Option<String>,
}

/// What is recorded when a request starts.
#[derive(Debug, Clone)]
pub struct InsertRequest {
    pub endpoint_id: String,
    pub endpoint_name: String,
    pub base_url: String,
    pub protocol: String,
    pub path: Option<String>,
    pub started_at: i64,
}

/// What is recorded when a request ends.
#[derive(Debug, Clone)]
pub struct FinishRequest {
    pub id: i64,
    pub status: String,
    pub http_status: Option<i64>,
    pub ttft_ms: Option<i64>,
    pub duration_ms: Option<i64>,
    pub model: Option<String>,
    pub input_uncached: i64,
    pub cache_read: i64,
    pub cache_write: i64,
    pub output_tokens: i64,
    pub loop_alert: bool,
    pub error: Option<String>,
}

// ---------------------------------------------------------------------------
// Showing a key
// ---------------------------------------------------------------------------

/// How a key is shown: `***` for a key of at most 8 characters, else its
/// first 4 and last 4 characters around `***`.
pub open spec fn masked(key: Seq<char>) -> Seq<char> {
    if key.len() <= 8 {
        "***"@
    } else {
        key.take(4) + "***"@ + key.skip(key.len() - 4)
    }
}

/// The shown key gives away no more than the key's first and last four
/// characters: keys that agree on those (or that are both at most 8
/// characters long) are shown alike.
pub proof fn lemma_mask_shows_only_the_ends(k1: Seq<char>, k2: Seq<char>)
    requires
        k1.len() <= 8 && k2.len() <= 8 || k1.len() > 8 && k2.len() > 8 && k1.take(4) == k2.take(4)
            && k1.skip(k1.len() - 4) == k2.skip(k2.len() - 4),
    ensures
        masked(k1) == masked(k2),
{
}

/// The key as shown to the panel.
pub fn mask_key(key: &str) -> (m: String)
    ensures
        m@ == masked(key@),
{
    let chars = chars_of(key);
    let stars = chars_of("***");
    if chars.len() <= 8 {
        return string_from(stars.as_slice());
    }
    let n = chars.len();
    let mut out = copy_range(chars.as_slice(), 0, 4);
    extend_chars(&mut out, stars.as_slice());
    let tail = copy_range(chars.as_slice(), n - 4, n);
    extend_chars(&mut out, tail.as_slice());
    assert(chars@.subrange(0, 4) =~= chars@.take(4));
    assert(chars@.subrange(n - 4, n as int) =~= chars@.skip(n - 4));
    string_from(out.as_slice())
}

// ---------------------------------------------------------------------------
// The wall clock
// ---------------------------------------------------------------------------

/// `std::time::SystemTime`.
#[verifier::external_type_specification]
#[verifier::external_body]
pub struct ExSystemTime(SystemTime);

/// `SystemTime::now` from std: the current time. Nothing is claimed of it.
#[verifier::external_body]
fn system_now() -> SystemTime {
    SystemTime::now()
}

/// `SystemTime::duration_since(UNIX_EPOCH)` from std; `None` where the time
/// lies before the epoch. Nothing is claimed of the duration.
#[verifier::external_body]
fn since_unix_epoch(t: &SystemTime) -> Option<Duration> {
    t.duration_since(std::time::UNIX_EPOCH).ok()
}

/// `Duration::as_millis` from std: the whole milliseconds of `d`. Nothing
/// is claimed of the value.
#[verifier::external_body]
fn duration_millis(d: &Duration) -> u128 {
    d.as_millis()
}

/// A clock reading in Unix milliseconds as the ledger stores it: cut to 64
/// bits, and 0 where the clock reads a time before 1970 (`None`).
pub fn millis_or_zero(ms: Option<u128>) -> (r: i64)
    ensures
        r == match ms {
            Some(m) => m as i64,
            None => 0,
        },
{
    match ms {
        Some(m) => m as i64,
        None => 0,
    }
}

/// The current time in Unix milliseconds (0 for a clock set before 1970),
/// cut to 64 bits: the clock's reading, passed through `millis_or_zero`.
pub fn now_ms() -> i64 {
    let t = system_now();
    let ms: Option<u128> = match since_unix_epoch(&t) {
        Some(d) => Some(duration_millis(&d)),
        None => None,
    };
    millis_or_zero(ms)
}

} // verus!
