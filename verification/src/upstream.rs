//! How a proxied request is forwarded upstream: the URL, which headers pass
//! in each direction, and the credentials the proxy adds.
use vstd::prelude::*;

use crate::proxy::Protocol;
use crate::text::{chars_eq, chars_of, copy_range, extend_chars, string_from};

verus! {

broadcast use vstd::string::group_string_axioms;

// ---------------------------------------------------------------------------
// Forwarding a request
// ---------------------------------------------------------------------------

/// `s` without its trailing `/` characters (as `trim_end_matches('/')`).
pub open spec fn trim_end_slashes(s: Seq<char>) -> Seq<char>
    decreases s.len(),
{
    if s.len() > 0 && s.last() == '/' {
        trim_end_slashes(s.drop_last())
    } else {
        s
    }
}

/// The upstream URL: the endpoint's base URL without trailing slashes, the
/// rest of the request path, and the request's query if it has one.
pub open spec fn upstream_url_of(base_url: Seq<char>, rest: Seq<char>, query: Option<Seq<char>>) -> Seq<char> {
    let q = match query {
        Some(q) => seq!['?'] + q,
        None => Seq::empty(),
    };
    trim_end_slashes(base_url) + seq!['/'] + rest + q
}

/// The upstream URL of a request to `/{endpoint-id}/{rest}?{query}`.
pub fn upstream_url(base_url: &str, rest: &str, query: Option<&str>) -> (url: String)
    ensures
        url@ == upstream_url_of(
            base_url@,
            rest@,
            match query {
                Some(q) => Some(q@),
                None => None,
            },
        ),
{
    let base = chars_of(base_url);
    let mut j = base.len();
    assert(base@.take(j as int) =~= base@);
    while j > 0 && base[j - 1] == '/'
        invariant
            j <= base@.len(),
            trim_end_slashes(base@) == trim_end_slashes(base@.take(j as int)),
        decreases j,
    {
        assert(base@.take(j as int).drop_last() =~= base@.take(j - 1));
        j = j - 1;
    }
    let mut out = copy_range(base.as_slice(), 0, j);
    assert(base@.subrange(0, j as int) =~= base@.take(j as int));
    out.push('/');
    let rest_chars = chars_of(rest);
    extend_chars(&mut out, rest_chars.as_slice());
    match query {
        Some(q) => {
            out.push('?');
            let q_chars = chars_of(q);
            let ghost before = out@;
            extend_chars(&mut out, q_chars.as_slice());
            assert(out@ =~= trim_end_slashes(base@) + seq!['/'] + rest@ + (seq!['?'] + q@));
        },
        None => {
            assert(out@ =~= trim_end_slashes(base@) + seq!['/'] + rest@ + Seq::<char>::empty());
        },
    }
    string_from(out.as_slice())
}

/// An ASCII upper-case letter made lower-case; any other character as is.
pub open spec fn ascii_lower_char(c: char) -> char {
    if 0x41 <= (c as u32) <= 0x5a {
        (((c as u32) + 32) as u8) as char
    } else {
        c
    }
}

/// `s` with ASCII letters made lower-case (as `to_ascii_lowercase`).
pub open spec fn ascii_lower(s: Seq<char>) -> Seq<char> {
    s.map_values(|c: char| ascii_lower_char(c))
}

/// The characters of `s` with ASCII letters made lower-case.
fn ascii_lower_chars(s: &str) -> (v: Vec<char>)
    ensures
        v@ == ascii_lower(s@),
{
    let cs = chars_of(s);
    let n = cs.len();
    let mut v: Vec<char> = Vec::new();
    for k in 0..n
        invariant
            n == cs@.len(),
            cs@ == s@,
            v@ == ascii_lower(cs@.take(k as int)),
    {
        let c = cs[k];
        let u = c as u32;
        let l = if 0x41 <= u && u <= 0x5a {
            ((u + 32) as u8) as char
        } else {
            c
        };
        v.push(l);
        assert(ascii_lower(cs@.take(k + 1)) =~= ascii_lower(cs@.take(k as int)).push(l));
    }
    assert(cs@.take(n as int) =~= cs@);
    v
}

/// Whether the characters `s` spell the string `lit`.
fn chars_are(s: &[char], lit: &str) -> (r: bool)
    ensures
        r == (s@ == lit@),
{
    let l = chars_of(lit);
    chars_eq(s, l.as_slice())
}

/// Request headers that are not passed upstream (by lower-case name):
/// hop-by-hop headers, the client's credentials (the proxy holds the real
/// key), and the content negotiation the proxy must control.
pub open spec fn is_skipped_request_header(name: Seq<char>) -> bool {
    ||| name == "host"@
    ||| name == "content-length"@
    ||| name == "connection"@
    ||| name == "transfer-encoding"@
    ||| name == "authorization"@
    ||| name == "x-api-key"@
    ||| name == "anthropic-version"@
    ||| name == "accept-encoding"@
    ||| name == "expect"@
}

/// The credentials a client sends never reach the provider: its
/// `authorization`, `x-api-key` and `anthropic-version` headers (in any
/// letter case) are held back, and the proxy sends its own.
pub proof fn lemma_client_credentials_held_back(name: Seq<char>)
    requires
        ascii_lower(name) == "authorization"@ || ascii_lower(name) == "x-api-key"@
            || ascii_lower(name) == "anthropic-version"@,
    ensures
        is_skipped_request_header(ascii_lower(name)),
{
}

/// The hop-by-hop request headers `host`, `content-length`, `connection`,
/// `transfer-encoding` and `expect` (in any letter case) are never passed
/// upstream: the client's `Host` names the proxy, not the provider.
pub proof fn law_hop_by_hop_headers_held_back(name: Seq<char>)
    requires
        ascii_lower(name) == "host"@ || ascii_lower(name) == "content-length"@ || ascii_lower(name)
            == "connection"@ || ascii_lower(name) == "transfer-encoding"@ || ascii_lower(name)
            == "expect"@,
    ensures
        is_skipped_request_header(ascii_lower(name)),
{
}

/// Whether a client request header is passed upstream.
pub fn forward_request_header(name: &str) -> (r: bool)
    ensures
        r == !is_skipped_request_header(ascii_lower(name@)),
{
    let l = ascii_lower_chars(name);
    let s = l.as_slice();
    !(chars_are(s, "host") || chars_are(s, "content-length") || chars_are(s, "connection")
        || chars_are(s, "transfer-encoding") || chars_are(s, "authorization") || chars_are(
        s,
        "x-api-key",
    ) || chars_are(s, "anthropic-version") || chars_are(s, "accept-encoding") || chars_are(
        s,
        "expect",
    ))
}

/// Response headers that are not passed back to the client (by lower-case
/// name): the framing headers of the upstream connection.
pub open spec fn is_skipped_response_header(name: Seq<char>) -> bool {
    ||| name == "content-length"@
    ||| name == "transfer-encoding"@
    ||| name == "connection"@
}

/// Whether an upstream response header is passed back to the client.
pub fn forward_response_header(name: &str) -> (r: bool)
    ensures
        r == !is_skipped_response_header(ascii_lower(name@)),
{
    let l = ascii_lower_chars(name);
    let s = l.as_slice();
    !(chars_are(s, "content-length") || chars_are(s, "transfer-encoding") || chars_are(
        s,
        "connection",
    ))
}

/// The `anthropic-version` sent when the client sent none.
pub open spec fn default_anthropic_version() -> Seq<char> {
    "2023-06-01"@
}

/// The credential headers sent upstream, by protocol: Anthropic gets the
/// key as `x-api-key` and the client's `anthropic-version` (or the
/// default); every other protocol gets `authorization: Bearer <key>`.
pub open spec fn auth_headers_of(protocol: Protocol, api_key: Seq<char>, client_version: Option<Seq<char>>) -> Seq<(Seq<char>, Seq<char>)> {
    match protocol {
        Protocol::Anthropic => seq![
            ("x-api-key"@, api_key),
            (
                "anthropic-version"@,
                match client_version {
                    Some(v) => v,
                    None => default_anthropic_version(),
                },
            ),
        ],
        Protocol::OpenAi => seq![("authorization"@, "Bearer "@ + api_key)],
    }
}

/// The credential headers sent upstream (name, value), in order.
pub fn auth_headers(protocol: Protocol, api_key: &str, client_version: Option<&str>) -> (h: Vec<(String, String)>)
    ensures
        h@.len() == auth_headers_of(
            protocol,
            api_key@,
            match client_version {
                Some(v) => Some(v@),
                None => None,
            },
        ).len(),
        forall|k: int|
            0 <= k < h@.len() ==> (#[trigger] h@[k]).0@ == auth_headers_of(
                protocol,
                api_key@,
                match client_version {
                    Some(v) => Some(v@),
                    None => None,
                },
            )[k].0 && h@[k].1@ == auth_headers_of(
                protocol,
                api_key@,
                match client_version {
                    Some(v) => Some(v@),
                    None => None,
                },
            )[k].1,
{
    let mut h: Vec<(String, String)> = Vec::new();
    match protocol {
        Protocol::Anthropic => {
            h.push(("x-api-key".to_owned(), api_key.to_owned()));
            let version = match client_version {
                Some(v) => v.to_owned(),
                None => "2023-06-01".to_owned(),
            };
            h.push(("anthropic-version".to_owned(), version));
        },
        Protocol::OpenAi => {
            let mut value = chars_of("Bearer ");
            let key = chars_of(api_key);
            extend_chars(&mut value, key.as_slice());
            h.push(("authorization".to_owned(), string_from(value.as_slice())));
        },
    }
    h
}

} // verus!
