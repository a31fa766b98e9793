//! The rules behind the panel's commands: which endpoints can be saved,
//! and the window the statistics cover.
use vstd::prelude::*;

use crate::db::EndpointFull;
use crate::text::{
    chars_of, has_prefix, is_white_space, lemma_trim_keeps, starts_with_chars, string_from, trim,
    trim_end, trim_start, trimmed,
};

verus! {

broadcast use vstd::string::group_string_axioms;

// ---------------------------------------------------------------------------
// Saving an endpoint
// ---------------------------------------------------------------------------

/// Why an endpoint cannot be saved.
#[derive(Clone, Copy, Debug, PartialEq, Eq, Structural)]
pub enum EndpointError {
    /// The id is empty or holds a character other than ASCII letters and
    /// digits, `-` and `_` (it is used as a URL path segment).
    BadId,
    /// The protocol is neither `anthropic` nor `openai`.
    BadProtocol,
    /// The base URL starts with neither `http://` nor `https://`.
    BadBaseUrl,
    /// The API key is empty once trimmed.
    EmptyApiKey,
}

/// The message shown for each error.
pub open spec fn error_message(e: EndpointError) -> Seq<char> {
    match e {
        EndpointError::BadId => "endpoint-id 只能包含字母、数字、- 和 _（它会被用作 URL 路径）"@,
        EndpointError::BadProtocol => "protocol 必须是 anthropic 或 openai"@,
        EndpointError::BadBaseUrl => "base_url 必须以 http:// 或 https:// 开头"@,
        EndpointError::EmptyApiKey => "api_key 不能为空"@,
    }
}

impl EndpointError {
    /// The message shown for the error.
    pub fn message(&self) -> (m: String)
        ensures
            m@ == error_message(*self),
    {
        match self {
            EndpointError::BadId => "endpoint-id 只能包含字母、数字、- 和 _（它会被用作 URL 路径）".to_owned(),
            EndpointError::BadProtocol => "protocol 必须是 anthropic 或 openai".to_owned(),
            EndpointError::BadBaseUrl => "base_url 必须以 http:// 或 https:// 开头".to_owned(),
            EndpointError::EmptyApiKey => "api_key 不能为空".to_owned(),
        }
    }
}

/// An ASCII letter or digit, `-` or `_`.
pub open spec fn is_id_char(c: char) -> bool {
    let u = c as u32;
    ||| 0x61 <= u <= 0x7a
    ||| 0x41 <= u <= 0x5a
    ||| 0x30 <= u <= 0x39
    ||| c == '-'
    ||| c == '_'
}

/// A usable endpoint id: not empty, and only id characters.
pub open spec fn valid_id(id: Seq<char>) -> bool {
    id.len() > 0 && forall|k: int| 0 <= k < id.len() ==> #[trigger] is_id_char(id[k])
}

/// The first rule that the input of a new endpoint breaks, in the order
/// they are checked; nothing when it meets them all.
pub open spec fn endpoint_check(id: Seq<char>, base_url: Seq<char>, api_key: Seq<char>, protocol: Seq<char>) -> Option<EndpointError> {
    if !valid_id(trim(id)) {
        Some(EndpointError::BadId)
    } else if !(protocol == "anthropic"@ || protocol == "openai"@) {
        Some(EndpointError::BadProtocol)
    } else if !(has_prefix(base_url, "http://"@) || has_prefix(base_url, "https://"@)) {
        Some(EndpointError::BadBaseUrl)
    } else if trim(api_key).len() == 0 {
        Some(EndpointError::EmptyApiKey)
    } else {
        None
    }
}

/// Every ASCII letter (upper or lower case), every ASCII digit, `-` and `_`
/// is an id character: an id made only of them, and not empty, never breaks
/// the id rule, whatever the other inputs are; and an id holding any other
/// character that is not whitespace always does.
pub proof fn law_ascii_ids_are_accepted(id: Seq<char>, base_url: Seq<char>, api_key: Seq<char>, protocol: Seq<char>)
    ensures
        ({
            &&& id.len() > 0
            &&& forall|k: int|
                0 <= k < id.len() ==> {
                    let u = #[trigger] id[k] as u32;
                    ||| 'a' as u32 <= u <= 'z' as u32
                    ||| 'A' as u32 <= u <= 'Z' as u32
                    ||| '0' as u32 <= u <= '9' as u32
                    ||| id[k] == '-'
                    ||| id[k] == '_'
                }
        }) ==> endpoint_check(id, base_url, api_key, protocol) != Some(EndpointError::BadId),
        (exists|k: int|
            0 <= k < id.len() && !is_white_space(#[trigger] id[k]) && {
                let u = id[k] as u32;
                &&& !('a' as u32 <= u <= 'z' as u32)
                &&& !('A' as u32 <= u <= 'Z' as u32)
                &&& !('0' as u32 <= u <= '9' as u32)
                &&& id[k] != '-'
                &&& id[k] != '_'
            }) ==> endpoint_check(id, base_url, api_key, protocol) == Some(EndpointError::BadId),
{
    if id.len() > 0 && forall|k: int|
        0 <= k < id.len() ==> {
            let u = #[trigger] id[k] as u32;
            ||| 'a' as u32 <= u <= 'z' as u32
            ||| 'A' as u32 <= u <= 'Z' as u32
            ||| '0' as u32 <= u <= '9' as u32
            ||| id[k] == '-'
            ||| id[k] == '_'
        } {
        assert forall|k: int| 0 <= k < id.len() implies #[trigger] is_id_char(id[k]) && !is_white_space(id[k]) by {
            let u = id[k] as u32;
            assert('a' as u32 <= u <= 'z' as u32 || 'A' as u32 <= u <= 'Z' as u32 || '0' as u32 <= u
                <= '9' as u32 || id[k] == '-' || id[k] == '_');
        }
        assert(!is_white_space(id[0]));
        assert(!is_white_space(id.last()));
        assert(trim_start(id) == id);
        assert(trim_end(id) == id);
        assert(trim(id) == id);
        assert(valid_id(trim(id)));
    }
    if exists|k: int|
        0 <= k < id.len() && !is_white_space(#[trigger] id[k]) && {
            let u = id[k] as u32;
            &&& !('a' as u32 <= u <= 'z' as u32)
            &&& !('A' as u32 <= u <= 'Z' as u32)
            &&& !('0' as u32 <= u <= '9' as u32)
            &&& id[k] != '-'
            &&& id[k] != '_'
        } {
        let k = choose|k: int|
            0 <= k < id.len() && !is_white_space(#[trigger] id[k]) && {
                let u = id[k] as u32;
                &&& !('a' as u32 <= u <= 'z' as u32)
                &&& !('A' as u32 <= u <= 'Z' as u32)
                &&& !('0' as u32 <= u <= '9' as u32)
                &&& id[k] != '-'
                &&& id[k] != '_'
            };
        let j = lemma_trim_keeps(id, k);
        assert(!is_id_char(trim(id)[j]));
    }
}

/// Whether every character is an id character.
fn all_id_chars(id: &[char]) -> (r: bool)
    ensures
        r == forall|k: int| 0 <= k < id@.len() ==> #[trigger] is_id_char(id@[k]),
{
    let n = id.len();
    for k in 0..n
        invariant
            n == id@.len(),
            forall|m: int| 0 <= m < k ==> #[trigger] is_id_char(id@[m]),
    {
        let u = id[k] as u32;
        let ok = (0x61 <= u && u <= 0x7a) || (0x41 <= u && u <= 0x5a) || (0x30 <= u && u <= 0x39)
            || id[k] == '-' || id[k] == '_';
        if !ok {
            assert(!is_id_char(id@[k as int]));
            return false;
        }
    }
    true
}

/// Checks the input of a new endpoint, and gives the endpoint to store: id,
/// name, base URL and key trimmed, protocol as given.
pub fn validate_endpoint(id: &str, name: &str, base_url: &str, api_key: &str, protocol: &str) -> (r: Result<EndpointFull, EndpointError>)
    ensures
        match r {
            Err(e) => endpoint_check(id@, base_url@, api_key@, protocol@) == Some(e),
            Ok(full) => {
                &&& endpoint_check(id@, base_url@, api_key@, protocol@) is None
                &&& full.id@ == trim(id@)
                &&& full.name@ == trim(name@)
                &&& full.base_url@ == trim(base_url@)
                &&& full.api_key@ == trim(api_key@)
                &&& full.protocol@ == protocol@
            },
        },
{
    let id_chars = chars_of(id);
    let id_t = trimmed(id_chars.as_slice());
    if id_t.len() == 0 || !all_id_chars(id_t.as_slice()) {
        return Err(EndpointError::BadId);
    }
    if !(crate::text::str_eq(protocol, "anthropic") || crate::text::str_eq(protocol, "openai")) {
        return Err(EndpointError::BadProtocol);
    }
    let url_chars = chars_of(base_url);
    let http = chars_of("http://");
    let https = chars_of("https://");
    if !(starts_with_chars(url_chars.as_slice(), http.as_slice()) || starts_with_chars(
        url_chars.as_slice(),
        https.as_slice(),
    )) {
        return Err(EndpointError::BadBaseUrl);
    }
    let key_chars = chars_of(api_key);
    let key_t = trimmed(key_chars.as_slice());
    if key_t.len() == 0 {
        return Err(EndpointError::EmptyApiKey);
    }
    let name_chars = chars_of(name);
    let name_t = trimmed(name_chars.as_slice());
    let url_t = trimmed(url_chars.as_slice());
    Ok(
        EndpointFull {
            id: string_from(id_t.as_slice()),
            name: string_from(name_t.as_slice()),
            base_url: string_from(url_t.as_slice()),
            api_key: string_from(key_t.as_slice()),
            protocol: protocol.to_owned(),
        },
    )
}

// ---------------------------------------------------------------------------
// The statistics window
// ---------------------------------------------------------------------------

/// Milliseconds in an hour.
pub const HOUR_MS: i64 = 3_600_000;

/// The start of the statistics window: the last `hours` hours before `now`
/// for a positive `hours` (64-bit two's-complement arithmetic), else all
/// time (0).
pub open spec fn window_start(now_ms: i64, hours: Option<i64>) -> i64 {
    match hours {
        Some(h) => if h > 0 {
            vstd::wrapping::i64_specs::wrapping_sub(
                now_ms,
                vstd::wrapping::i64_specs::wrapping_mul(h, HOUR_MS),
            )
        } else {
            0
        },
        None => 0,
    }
}

/// The start (in Unix milliseconds) of the statistics window.
pub fn stats_window_start(now_ms: i64, hours: Option<i64>) -> (since: i64)
    ensures
        since == window_start(now_ms, hours),
{
    match hours {
        Some(h) => if h > 0 {
            now_ms.wrapping_sub(h.wrapping_mul(HOUR_MS))
        } else {
            0
        },
        None => 0,
    }
}

} // verus!
