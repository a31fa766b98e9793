//! The proxy's view of an endpoint, and the tap on one proxied response
//! stream.
//!
//! The bytes of the stream go to the client untouched; the tap reads them
//! on the side. It frames the SSE events, takes the model and the four token
//! buckets from the event payloads, keeps a bounded tail of the generated
//! text for the repetition guard, measures the time to the first byte, and
//! yields the request's record exactly once.
use vstd::prelude::*;

use crate::guard::{detect_loop_chars, loop_verdict, shorten_unit_chars, shortened};
use crate::db::FinishRequest;
use crate::json::{event_fields_of, json_parses, payload_view, ParsedJson};
use crate::sse::{event_payload_of, frame, lemma_frame_append, lemma_payloads_append, payloads, take_events};
use crate::text::{lemma_decode_utf8_append, chars_of, copy_range, extend_chars, str_eq, utf8_len, utf8_len_exceeds, utf8_width, lemma_utf8_len_concat, char_utf8_width};

verus! {

broadcast use vstd::string::group_string_axioms;

/// Above this many bytes the SSE buffer is dropped (a stream without blank
/// lines would otherwise grow it without bound).
pub const SSE_BUF_CAP: usize = 512 * 1024;

/// Above this many bytes the text tail is cut back to half of it.
pub const TAIL_KEEP_BYTES: usize = 4096;

// ---------------------------------------------------------------------------
// Endpoints, protocols, usage and event fields
// ---------------------------------------------------------------------------

/// An endpoint as the proxy uses it.
#[derive(Clone, Debug)]
pub struct EndpointCfg {
    pub id: String,
    pub name: String,
    pub base_url: String,
    pub api_key: String,
    /// `"anthropic"` or `"openai"`
    pub protocol: String,
}

/// The wire protocol of an endpoint.
#[derive(Clone, Copy, Debug, PartialEq, Eq, Structural)]
pub enum Protocol {
    /// `anthropic-messages`
    Anthropic,
    /// `openai-completions` (every protocol name other than `anthropic`)
    OpenAi,
}

/// The protocol an endpoint's protocol name selects.
pub open spec fn protocol_named(name: Seq<char>) -> Protocol {
    if name == "anthropic"@ {
        Protocol::Anthropic
    } else {
        Protocol::OpenAi
    }
}

impl Protocol {
    /// The protocol an endpoint's protocol name selects.
    pub fn from_name(name: &str) -> (p: Protocol)
        ensures
            p == protocol_named(name@),
    {
        if str_eq(name, "anthropic") {
            Protocol::Anthropic
        } else {
            Protocol::OpenAi
        }
    }
}

/// The four token buckets of a request.
#[derive(Clone, Copy, Debug, PartialEq, Eq, Structural)]
pub struct Usage {
    /// Input tokens that missed the cache.
    pub input_uncached: i64,
    /// Input tokens read from the cache.
    pub cache_read: i64,
    /// Input tokens written to the cache.
    pub cache_write: i64,
    /// Output tokens.
    pub output_tokens: i64,
}

/// No tokens in any bucket.
pub open spec fn zero_usage() -> Usage {
    Usage { input_uncached: 0, cache_read: 0, cache_write: 0, output_tokens: 0 }
}

impl Default for Usage {
    fn default() -> (u: Usage)
        ensures
            u == zero_usage(),
    {
        Usage { input_uncached: 0, cache_read: 0, cache_write: 0, output_tokens: 0 }
    }
}

/// The values of one event's JSON payload that the tap reads. A field is
/// `None` where the path is missing or holds a value of another JSON type.
#[derive(Clone, Debug)]
pub struct EventFields {
    /// `type` (a string)
    pub kind: Option<String>,
    /// `model` (a string)
    pub model: Option<String>,
    /// `message.model` (a string)
    pub message_model: Option<String>,
    /// `choices[0].delta.content` (a string)
    pub choice_content: Option<String>,
    /// `choices[0].delta.reasoning_content` (a string)
    pub choice_reasoning: Option<String>,
    /// `delta.text` (a string)
    pub delta_text: Option<String>,
    /// `delta.thinking` (a string)
    pub delta_thinking: Option<String>,
    /// whether `usage` is a JSON object
    pub usage_is_object: bool,
    /// `usage.prompt_tokens` (an `i64`)
    pub prompt_tokens: Option<i64>,
    /// `usage.prompt_tokens_details.cached_tokens` (an `i64`)
    pub cached_tokens: Option<i64>,
    /// `usage.prompt_cache_hit_tokens` (an `i64`)
    pub prompt_cache_hit_tokens: Option<i64>,
    /// `usage.completion_tokens` (an `i64`)
    pub completion_tokens: Option<i64>,
    /// `usage.output_tokens` (an `i64`)
    pub output_tokens: Option<i64>,
    /// `message.usage.input_tokens` (an `i64`)
    pub message_input_tokens: Option<i64>,
    /// `message.usage.cache_read_input_tokens` (an `i64`)
    pub message_cache_read_tokens: Option<i64>,
    /// `message.usage.cache_creation_input_tokens` (an `i64`)
    pub message_cache_creation_tokens: Option<i64>,
}

/// What an event reports, as characters and numbers (the view of
/// `EventFields`).
pub struct EventView {
    pub kind: Option<Seq<char>>,
    pub model: Option<Seq<char>>,
    pub message_model: Option<Seq<char>>,
    pub choice_content: Option<Seq<char>>,
    pub choice_reasoning: Option<Seq<char>>,
    pub delta_text: Option<Seq<char>>,
    pub delta_thinking: Option<Seq<char>>,
    pub usage_is_object: bool,
    pub prompt_tokens: Option<i64>,
    pub cached_tokens: Option<i64>,
    pub prompt_cache_hit_tokens: Option<i64>,
    pub completion_tokens: Option<i64>,
    pub output_tokens: Option<i64>,
    pub message_input_tokens: Option<i64>,
    pub message_cache_read_tokens: Option<i64>,
    pub message_cache_creation_tokens: Option<i64>,
}

impl View for EventFields {
    type V = EventView;

    open spec fn view(&self) -> EventView {
        EventView {
            kind: opt_view(self.kind),
            model: opt_view(self.model),
            message_model: opt_view(self.message_model),
            choice_content: opt_view(self.choice_content),
            choice_reasoning: opt_view(self.choice_reasoning),
            delta_text: opt_view(self.delta_text),
            delta_thinking: opt_view(self.delta_thinking),
            usage_is_object: self.usage_is_object,
            prompt_tokens: self.prompt_tokens,
            cached_tokens: self.cached_tokens,
            prompt_cache_hit_tokens: self.prompt_cache_hit_tokens,
            completion_tokens: self.completion_tokens,
            output_tokens: self.output_tokens,
            message_input_tokens: self.message_input_tokens,
            message_cache_read_tokens: self.message_cache_read_tokens,
            message_cache_creation_tokens: self.message_cache_creation_tokens,
        }
    }
}

/// Optional characters; nothing when they are absent.
pub open spec fn seq_or_empty(o: Option<Seq<char>>) -> Seq<char> {
    match o {
        Some(s) => s,
        None => Seq::empty(),
    }
}

/// The characters of an optional string.
pub open spec fn opt_view(o: Option<String>) -> Option<Seq<char>> {
    match o {
        Some(s) => Some(s@),
        None => None,
    }
}

/// The characters of an optional string; nothing when it is absent.
pub open spec fn text_or_empty(o: Option<String>) -> Seq<char> {
    match o {
        Some(s) => s@,
        None => Seq::empty(),
    }
}

/// An optional count, zero when absent.
pub open spec fn count_or_zero(o: Option<i64>) -> i64 {
    match o {
        Some(v) => v,
        None => 0,
    }
}

/// The event's `type` is `name`.
pub open spec fn kind_is(f: EventView, name: Seq<char>) -> bool {
    f.kind == Some(name)
}

/// The usage an OpenAI-style `usage` object reports: the cached input comes
/// from `prompt_tokens_details.cached_tokens`, else from
/// `prompt_cache_hit_tokens`; the uncached input is the prompt minus the
/// cached part (64-bit two's-complement), and never below zero.
pub open spec fn openai_usage(f: EventView) -> Usage {
    let prompt = count_or_zero(f.prompt_tokens);
    let cached = match f.cached_tokens {
        Some(c) => c,
        None => count_or_zero(f.prompt_cache_hit_tokens),
    };
    let diff = vstd::wrapping::i64_specs::wrapping_sub(prompt, cached);
    Usage {
        input_uncached: if diff > 0 { diff } else { 0 },
        cache_read: cached,
        cache_write: 0,
        output_tokens: count_or_zero(f.completion_tokens),
    }
}

/// The model recorded after an event.
pub open spec fn model_after(p: Protocol, model: Option<Seq<char>>, f: EventView) -> Option<Seq<char>> {
    match p {
        Protocol::OpenAi => if model is None && f.model is Some {
            f.model
        } else {
            model
        },
        Protocol::Anthropic => if kind_is(f, "message_start"@) && f.message_model is Some {
            f.message_model
        } else {
            model
        },
    }
}

/// The usage recorded after an event.
pub open spec fn usage_after(p: Protocol, u: Usage, f: EventView) -> Usage {
    match p {
        Protocol::OpenAi => if f.usage_is_object {
            openai_usage(f)
        } else {
            u
        },
        Protocol::Anthropic => if kind_is(f, "message_start"@) {
            Usage {
                input_uncached: count_or_zero(f.message_input_tokens),
                cache_read: count_or_zero(f.message_cache_read_tokens),
                cache_write: count_or_zero(f.message_cache_creation_tokens),
                output_tokens: u.output_tokens,
            }
        } else if kind_is(f, "message_delta"@) && f.output_tokens is Some {
            Usage {
                input_uncached: u.input_uncached,
                cache_read: u.cache_read,
                cache_write: u.cache_write,
                output_tokens: f.output_tokens.unwrap(),
            }
        } else {
            u
        },
    }
}

/// Whether an event reports usage.
pub open spec fn reports_usage(p: Protocol, f: EventView) -> bool {
    match p {
        Protocol::OpenAi => f.usage_is_object,
        Protocol::Anthropic => kind_is(f, "message_start"@) || (kind_is(f, "message_delta"@)
            && f.output_tokens is Some),
    }
}

/// For the OpenAI protocol, an event whose `usage` is a JSON object sets the
/// recorded usage from that object alone, whatever else the event carries
/// (choices, content, model) and whatever was recorded before: two such
/// events with the same usage numbers leave the same usage. The cached input
/// is `prompt_tokens_details.cached_tokens`, else `prompt_cache_hit_tokens`,
/// else 0; when it lies between 0 and the prompt, the uncached input is the
/// prompt minus it; nothing is written to the cache; the output is
/// `completion_tokens` (0 when absent). Such an event reports usage.
pub proof fn law_openai_usage_object_sets_usage(u1: Usage, f: EventView, u2: Usage, g: EventView)
    requires
        f.usage_is_object,
        g.usage_is_object,
        g.prompt_tokens == f.prompt_tokens,
        g.cached_tokens == f.cached_tokens,
        g.prompt_cache_hit_tokens == f.prompt_cache_hit_tokens,
        g.completion_tokens == f.completion_tokens,
    ensures
        usage_after(Protocol::OpenAi, u1, f) == usage_after(Protocol::OpenAi, u2, g),
        reports_usage(Protocol::OpenAi, f),
        ({
            let prompt: int = match f.prompt_tokens {
                Some(v) => v as int,
                None => 0,
            };
            let cached: int = match f.cached_tokens {
                Some(c) => c as int,
                None => match f.prompt_cache_hit_tokens {
                    Some(h) => h as int,
                    None => 0,
                },
            };
            let r = usage_after(Protocol::OpenAi, u1, f);
            &&& r.cache_read == cached
            &&& r.cache_write == 0
            &&& r.output_tokens == match f.completion_tokens {
                Some(v) => v as int,
                None => 0,
            }
            &&& 0 <= cached <= prompt ==> r.input_uncached == prompt - cached
        }),
{
}

/// The two pieces of generated text an event carries, in the order they are
/// fed to the guard (empty where there is none).
pub open spec fn event_texts(p: Protocol, f: EventView) -> (Seq<char>, Seq<char>) {
    match p {
        Protocol::OpenAi => (seq_or_empty(f.choice_content), seq_or_empty(f.choice_reasoning)),
        Protocol::Anthropic => if kind_is(f, "content_block_delta"@) {
            (seq_or_empty(f.delta_text), seq_or_empty(f.delta_thinking))
        } else {
            (Seq::empty(), Seq::empty())
        },
    }
}

// ---------------------------------------------------------------------------
// The text tail and the repetition guard
// ---------------------------------------------------------------------------

/// `t` without the leading characters that keep it over `budget` bytes.
pub open spec fn keep_last_bytes(t: Seq<char>, budget: nat) -> Seq<char>
    decreases t.len(),
{
    if t.len() == 0 || utf8_len(t) <= budget {
        t
    } else {
        keep_last_bytes(t.drop_first(), budget)
    }
}

/// A tail that grew over `TAIL_KEEP_BYTES` bytes is cut back to at most half
/// of that, at a character boundary.
pub open spec fn bounded_tail(t: Seq<char>) -> Seq<char> {
    if utf8_len(t) > TAIL_KEEP_BYTES {
        keep_last_bytes(t, (TAIL_KEEP_BYTES / 2) as nat)
    } else {
        t
    }
}

/// The tail after `s` is fed to it.
pub open spec fn fed_tail(tail: Seq<char>, s: Seq<char>) -> Seq<char> {
    if s.len() == 0 {
        tail
    } else {
        bounded_tail(tail + s)
    }
}

/// The alert (shortened unit, run length) that feeding `s` raises, if any:
/// only a request not yet alerted is alerted, and only when the new tail
/// holds a loop.
pub open spec fn feed_alert(tail: Seq<char>, alerted: bool, s: Seq<char>) -> Option<(Seq<char>, int)> {
    if s.len() == 0 || alerted {
        None
    } else {
        match loop_verdict(fed_tail(tail, s)) {
            Some((unit, run)) => Some((shortened(unit), run)),
            None => None,
        }
    }
}

/// Whether the request is alerted after `s` is fed.
pub open spec fn fed_alerted(tail: Seq<char>, alerted: bool, s: Seq<char>) -> bool {
    alerted || feed_alert(tail, alerted, s) is Some
}

/// A repetition alert: the shortened unit and the run length.
#[derive(Clone, Debug)]
pub struct LoopAlert {
    pub unit: String,
    pub run: usize,
}

/// The alert matches its description.
pub open spec fn alert_is(r: Option<LoopAlert>, a: Option<(Seq<char>, int)>) -> bool {
    match r {
        None => a is None,
        Some(x) => a == Some((x.unit@, x.run as int)),
    }
}

/// What remains of `t` is never over the budget.
pub proof fn lemma_keep_last_bytes_fits(t: Seq<char>, budget: nat)
    ensures
        utf8_len(keep_last_bytes(t, budget)) <= budget,
    decreases t.len(),
{
    if t.len() == 0 || utf8_len(t) <= budget {
    } else {
        lemma_keep_last_bytes_fits(t.drop_first(), budget);
    }
}

/// A bounded tail is at most `TAIL_KEEP_BYTES` bytes long.
pub proof fn lemma_bounded_tail_fits(t: Seq<char>)
    ensures
        utf8_len(bounded_tail(t)) <= TAIL_KEEP_BYTES,
{
    if utf8_len(t) > TAIL_KEEP_BYTES {
        lemma_keep_last_bytes_fits(t, (TAIL_KEEP_BYTES / 2) as nat);
    }
}

/// The byte length of a single character.
proof fn lemma_utf8_len_single(c: char)
    ensures
        utf8_len(seq![c]) == utf8_width(c),
{
    assert(seq![c].drop_last() =~= Seq::<char>::empty());
    assert(utf8_len(Seq::<char>::empty()) == 0);
    assert(seq![c].last() == c);
}

/// The longest suffix that fits the budget starts where the scan from the
/// end stopped.
proof fn lemma_keep_last_bytes_at(t: Seq<char>, budget: nat, j: int)
    requires
        0 <= j <= t.len(),
        utf8_len(t.skip(j)) <= budget,
        j > 0 ==> utf8_len(t.skip(j - 1)) > budget,
    ensures
        keep_last_bytes(t, budget) == t.skip(j),
    decreases j,
{
    if j == 0 {
        assert(t.skip(0) =~= t);
    } else {
        lemma_utf8_len_concat(t.take(j - 1), t.skip(j - 1));
        assert(t.take(j - 1) + t.skip(j - 1) =~= t);
        assert(t.drop_first().skip(j - 1) =~= t.skip(j));
        if j > 1 {
            assert(t.drop_first().skip(j - 2) =~= t.skip(j - 1));
        }
        lemma_keep_last_bytes_at(t.drop_first(), budget, j - 1);
    }
}

/// Where the longest suffix of `t` that fits `budget` bytes starts.
fn last_bytes_start(t: &[char], budget: usize) -> (j: usize)
    requires
        budget <= usize::MAX - 4,
    ensures
        j <= t@.len(),
        keep_last_bytes(t@, budget as nat) == t@.skip(j as int),
{
    let mut j = t.len();
    let mut acc: usize = 0;
    assert(t@.skip(j as int) =~= Seq::<char>::empty());
    while j > 0 && acc + char_utf8_width(t[j - 1]) <= budget
        invariant
            j <= t@.len(),
            acc == utf8_len(t@.skip(j as int)),
            acc <= budget,
            budget <= usize::MAX - 4,
        decreases j,
    {
        proof {
            lemma_utf8_len_single(t@[j - 1]);
            lemma_utf8_len_concat(seq![t@[j - 1]], t@.skip(j as int));
            assert(seq![t@[j - 1]] + t@.skip(j as int) =~= t@.skip(j - 1));
        }
        acc = acc + char_utf8_width(t[j - 1]);
        j = j - 1;
    }
    proof {
        if j > 0 {
            lemma_utf8_len_single(t@[j - 1]);
            lemma_utf8_len_concat(seq![t@[j - 1]], t@.skip(j as int));
            assert(seq![t@[j - 1]] + t@.skip(j as int) =~= t@.skip(j - 1));
        }
        lemma_keep_last_bytes_at(t@, budget as nat, j as int);
    }
    j
}

/// Clones an optional string.
fn clone_opt_string(o: &Option<String>) -> (r: Option<String>)
    ensures
        opt_view(r) == opt_view(*o),
{
    match o {
        Some(s) => Some(s.clone()),
        None => None,
    }
}

// ---------------------------------------------------------------------------
// The tap
// ---------------------------------------------------------------------------

/// What the tap has read so far: the model, the usage, whether usage was
/// reported, the text tail and whether an alert was raised.
pub struct TapReading {
    pub model: Option<Seq<char>>,
    pub usage: Usage,
    pub got_usage: bool,
    pub tail: Seq<char>,
    pub alerted: bool,
}

/// What the tap has read after one more payload: nothing changes for a
/// payload that is not JSON; otherwise the model, the usage and the text are
/// taken from the values at their paths (`payload_view`), by protocol.
pub open spec fn after_payload(p: Protocol, s: TapReading, data: Seq<char>) -> TapReading {
    if !json_parses(data) {
        s
    } else {
        let f = payload_view(data);
        let (ta, tb) = event_texts(p, f);
        let t1 = fed_tail(s.tail, ta);
        let al1 = fed_alerted(s.tail, s.alerted, ta);
        TapReading {
            model: model_after(p, s.model, f),
            usage: usage_after(p, s.usage, f),
            got_usage: s.got_usage || reports_usage(p, f),
            tail: fed_tail(t1, tb),
            alerted: fed_alerted(t1, al1, tb),
        }
    }
}

/// The alert one more payload raises, if any: the first of its two pieces
/// of text that raises one.
pub open spec fn payload_alert(p: Protocol, s: TapReading, data: Seq<char>) -> Option<(Seq<char>, int)> {
    if !json_parses(data) {
        None
    } else {
        let (ta, tb) = event_texts(p, payload_view(data));
        let t1 = fed_tail(s.tail, ta);
        let al1 = fed_alerted(s.tail, s.alerted, ta);
        if feed_alert(s.tail, s.alerted, ta) is Some {
            feed_alert(s.tail, s.alerted, ta)
        } else {
            feed_alert(t1, al1, tb)
        }
    }
}

/// What the tap has read after the payloads `ds`, in order.
pub open spec fn after_payloads(p: Protocol, s: TapReading, ds: Seq<Seq<char>>) -> TapReading
    decreases ds.len(),
{
    if ds.len() == 0 {
        s
    } else {
        after_payload(p, after_payloads(p, s, ds.drop_last()), ds.last())
    }
}

/// The alerts the payloads `ds` raise, in order.
pub open spec fn payloads_alerts(p: Protocol, s: TapReading, ds: Seq<Seq<char>>) -> Seq<(Seq<char>, int)>
    decreases ds.len(),
{
    if ds.len() == 0 {
        Seq::empty()
    } else {
        let prev = payloads_alerts(p, s, ds.drop_last());
        match payload_alert(p, after_payloads(p, s, ds.drop_last()), ds.last()) {
            Some(a) => prev.push(a),
            None => prev,
        }
    }
}

/// The status recorded for a request that ends with `status`: a stream that
/// ended normally is still an error when the provider answered 400 or above.
pub open spec fn final_status(status: Seq<char>, http_status: Option<i64>) -> Seq<char> {
    if status == "ok"@ && (http_status matches Some(c) && c >= 400) {
        "error"@
    } else {
        status
    }
}

/// A request whose stream ended normally is recorded as an error exactly
/// when the provider answered with an HTTP status of 400 or above (every 4xx
/// and 5xx code), and as `ok` below 400 or when no status is known; any
/// other status is recorded as given.
pub proof fn law_http_errors_fail_the_request(status: Seq<char>, code: i64)
    ensures
        400 <= code ==> final_status("ok"@, Some(code)) == "error"@,
        code < 400 ==> final_status("ok"@, Some(code)) == "ok"@,
        final_status("ok"@, None) == "ok"@,
        status != "ok"@ ==> final_status(status, Some(code)) == status && final_status(status, None)
            == status,
{
}

/// The state of the tap on one response stream.
pub struct Tap {
    /// The request's row in the ledger (`-1` until it has one).
    pub request_id: i64,
    pub protocol: Protocol,
    pub http_status: Option<i64>,
    /// Milliseconds from the request to the first byte of the response.
    pub ttft_ms: Option<i64>,
    /// Received text that does not yet make a complete event.
    pub sse_buf: Vec<char>,
    pub model: Option<String>,
    pub usage: Usage,
    pub got_usage: bool,
    /// The recent generated text the guard looks at.
    pub text_tail: Vec<char>,
    /// Whether a repetition alert was raised for this request.
    pub alerted: bool,
    /// Whether the request's record was yielded.
    pub finalized: bool,
}

impl Tap {
    /// The buffers stay bounded: the text tail within `TAIL_KEEP_BYTES`
    /// bytes and the SSE buffer within `SSE_BUF_CAP` bytes.
    pub open spec fn wf(&self) -> bool {
        &&& utf8_len(self.text_tail@) <= TAIL_KEEP_BYTES
        &&& utf8_len(self.sse_buf@) <= SSE_BUF_CAP
    }

    /// What the tap has read so far.
    pub open spec fn reading(&self) -> TapReading {
        TapReading {
            model: opt_view(self.model),
            usage: self.usage,
            got_usage: self.got_usage,
            tail: self.text_tail@,
            alerted: self.alerted,
        }
    }

    /// A fresh tap for a request on an endpoint of the given protocol.
    pub fn new(protocol: Protocol) -> (t: Tap)
        ensures
            t.wf(),
            t.request_id == -1,
            t.protocol == protocol,
            t.http_status is None,
            t.ttft_ms is None,
            t.sse_buf@.len() == 0,
            t.model is None,
            t.usage == zero_usage(),
            !t.got_usage,
            t.text_tail@.len() == 0,
            !t.alerted,
            !t.finalized,
    {
        let t = Tap {
            request_id: -1,
            protocol,
            http_status: None,
            ttft_ms: None,
            sse_buf: Vec::new(),
            model: None,
            usage: Usage::default(),
            got_usage: false,
            text_tail: Vec::new(),
            alerted: false,
            finalized: false,
        };
        assert(utf8_len(t.text_tail@) == 0);
        assert(utf8_len(t.sse_buf@) == 0);
        t
    }

    /// Feeds generated text to the tail and, unless the request was already
    /// alerted, runs the repetition guard on it.
    pub fn feed_text(&mut self, s: &str) -> (r: Option<LoopAlert>)
        requires
            old(self).wf(),
        ensures
            final(self).wf(),
            final(self).text_tail@ == fed_tail(old(self).text_tail@, s@),
            final(self).alerted == fed_alerted(old(self).text_tail@, old(self).alerted, s@),
            alert_is(r, feed_alert(old(self).text_tail@, old(self).alerted, s@)),
            final(self).request_id == old(self).request_id,
            final(self).protocol == old(self).protocol,
            final(self).http_status == old(self).http_status,
            final(self).ttft_ms == old(self).ttft_ms,
            final(self).sse_buf@ == old(self).sse_buf@,
            final(self).model == old(self).model,
            final(self).usage == old(self).usage,
            final(self).got_usage == old(self).got_usage,
            final(self).finalized == old(self).finalized,
    {
        let cs = chars_of(s);
        if cs.len() == 0 {
            return None;
        }
        extend_chars(&mut self.text_tail, cs.as_slice());
        if utf8_len_exceeds(self.text_tail.as_slice(), TAIL_KEEP_BYTES) {
            let j = last_bytes_start(self.text_tail.as_slice(), TAIL_KEEP_BYTES / 2);
            let n = self.text_tail.len();
            let kept = copy_range(self.text_tail.as_slice(), j, n);
            assert(kept@ =~= self.text_tail@.skip(j as int));
            self.text_tail = kept;
        }
        proof {
            lemma_bounded_tail_fits(old(self).text_tail@ + s@);
        }
        if self.alerted {
            return None;
        }
        match detect_loop_chars(self.text_tail.as_slice()) {
            None => None,
            Some((unit, run)) => {
                self.alerted = true;
                Some(LoopAlert { unit: shorten_unit_chars(unit.as_slice()), run })
            },
        }
    }

    /// Feeds an optional piece of text.
    fn feed_opt(&mut self, s: &Option<String>) -> (r: Option<LoopAlert>)
        requires
            old(self).wf(),
        ensures
            final(self).wf(),
            final(self).text_tail@ == fed_tail(old(self).text_tail@, text_or_empty(*s)),
            final(self).alerted == fed_alerted(old(self).text_tail@, old(self).alerted, text_or_empty(*s)),
            alert_is(r, feed_alert(old(self).text_tail@, old(self).alerted, text_or_empty(*s))),
            final(self).request_id == old(self).request_id,
            final(self).protocol == old(self).protocol,
            final(self).http_status == old(self).http_status,
            final(self).ttft_ms == old(self).ttft_ms,
            final(self).sse_buf@ == old(self).sse_buf@,
            final(self).model == old(self).model,
            final(self).usage == old(self).usage,
            final(self).got_usage == old(self).got_usage,
            final(self).finalized == old(self).finalized,
    {
        match s {
            Some(t) => self.feed_text(t.as_str()),
            None => None,
        }
    }

    /// Feeds the two pieces of text of an event; the alert, if one is
    /// raised, comes from the first piece that raises one.
    fn feed_pair(&mut self, a: &Option<String>, b: &Option<String>) -> (r: Option<LoopAlert>)
        requires
            old(self).wf(),
        ensures
            final(self).wf(),
            ({
                let t0 = old(self).text_tail@;
                let al0 = old(self).alerted;
                let ta = text_or_empty(*a);
                let tb = text_or_empty(*b);
                let t1 = fed_tail(t0, ta);
                let al1 = fed_alerted(t0, al0, ta);
                &&& final(self).text_tail@ == fed_tail(t1, tb)
                &&& final(self).alerted == fed_alerted(t1, al1, tb)
                &&& alert_is(
                    r,
                    if feed_alert(t0, al0, ta) is Some {
                        feed_alert(t0, al0, ta)
                    } else {
                        feed_alert(t1, al1, tb)
                    },
                )
            }),
            final(self).request_id == old(self).request_id,
            final(self).protocol == old(self).protocol,
            final(self).http_status == old(self).http_status,
            final(self).ttft_ms == old(self).ttft_ms,
            final(self).sse_buf@ == old(self).sse_buf@,
            final(self).model == old(self).model,
            final(self).usage == old(self).usage,
            final(self).got_usage == old(self).got_usage,
            final(self).finalized == old(self).finalized,
    {
        let first = self.feed_opt(a);
        let second = self.feed_opt(b);
        if first.is_some() {
            first
        } else {
            second
        }
    }

    /// Takes what an OpenAI-style event reports.
    fn process_openai(&mut self, f: &EventFields) -> (r: Option<LoopAlert>)
        requires
            old(self).wf(),
            old(self).protocol == Protocol::OpenAi,
        ensures
            final(self).wf(),
            opt_view(final(self).model) == model_after(Protocol::OpenAi, opt_view(old(self).model), f@),
            final(self).usage == usage_after(Protocol::OpenAi, old(self).usage, f@),
            final(self).got_usage == (old(self).got_usage || reports_usage(Protocol::OpenAi, f@)),
            ({
                let (ta, tb) = event_texts(Protocol::OpenAi, f@);
                let t0 = old(self).text_tail@;
                let al0 = old(self).alerted;
                let t1 = fed_tail(t0, ta);
                let al1 = fed_alerted(t0, al0, ta);
                &&& final(self).text_tail@ == fed_tail(t1, tb)
                &&& final(self).alerted == fed_alerted(t1, al1, tb)
                &&& alert_is(
                    r,
                    if feed_alert(t0, al0, ta) is Some {
                        feed_alert(t0, al0, ta)
                    } else {
                        feed_alert(t1, al1, tb)
                    },
                )
            }),
            final(self).request_id == old(self).request_id,
            final(self).protocol == old(self).protocol,
            final(self).http_status == old(self).http_status,
            final(self).ttft_ms == old(self).ttft_ms,
            final(self).sse_buf@ == old(self).sse_buf@,
            final(self).finalized == old(self).finalized,
    {
        if self.model.is_none() {
            if let Some(m) = &f.model {
                self.model = Some(m.clone());
            }
        }
        let alert = self.feed_pair(&f.choice_content, &f.choice_reasoning);
        if f.usage_is_object {
            let prompt = match f.prompt_tokens {
                Some(v) => v,
                None => 0,
            };
            let cached = match f.cached_tokens {
                Some(c) => c,
                None => match f.prompt_cache_hit_tokens {
                    Some(c) => c,
                    None => 0,
                },
            };
            let diff = prompt.wrapping_sub(cached);
            self.usage = Usage {
                input_uncached: if diff > 0 { diff } else { 0 },
                cache_read: cached,
                cache_write: 0,
                output_tokens: match f.completion_tokens {
                    Some(v) => v,
                    None => 0,
                },
            };
            self.got_usage = true;
        }
        alert
    }

    /// Takes what an Anthropic-style event reports.
    fn process_anthropic(&mut self, f: &EventFields) -> (r: Option<LoopAlert>)
        requires
            old(self).wf(),
            old(self).protocol == Protocol::Anthropic,
        ensures
            final(self).wf(),
            opt_view(final(self).model) == model_after(Protocol::Anthropic, opt_view(old(self).model), f@),
            final(self).usage == usage_after(Protocol::Anthropic, old(self).usage, f@),
            final(self).got_usage == (old(self).got_usage || reports_usage(Protocol::Anthropic, f@)),
            ({
                let (ta, tb) = event_texts(Protocol::Anthropic, f@);
                let t0 = old(self).text_tail@;
                let al0 = old(self).alerted;
                let t1 = fed_tail(t0, ta);
                let al1 = fed_alerted(t0, al0, ta);
                &&& final(self).text_tail@ == fed_tail(t1, tb)
                &&& final(self).alerted == fed_alerted(t1, al1, tb)
                &&& alert_is(
                    r,
                    if feed_alert(t0, al0, ta) is Some {
                        feed_alert(t0, al0, ta)
                    } else {
                        feed_alert(t1, al1, tb)
                    },
                )
            }),
            final(self).request_id == old(self).request_id,
            final(self).protocol == old(self).protocol,
            final(self).http_status == old(self).http_status,
            final(self).ttft_ms == old(self).ttft_ms,
            final(self).sse_buf@ == old(self).sse_buf@,
            final(self).finalized == old(self).finalized,
    {
        proof {
            reveal_strlit("message_start");
            reveal_strlit("content_block_delta");
            reveal_strlit("message_delta");
            assert("content_block_delta"@.len() == 19);
            assert("message_delta"@.len() == 13);
            assert("message_start"@.len() == 13);
            assert("message_start"@[8] != "message_delta"@[8]);
        }
        let is_start = match &f.kind {
            Some(k) => str_eq(k.as_str(), "message_start"),
            None => false,
        };
        let is_block = match &f.kind {
            Some(k) => str_eq(k.as_str(), "content_block_delta"),
            None => false,
        };
        let is_delta = match &f.kind {
            Some(k) => str_eq(k.as_str(), "message_delta"),
            None => false,
        };
        if is_start {
            if let Some(m) = &f.message_model {
                self.model = Some(m.clone());
            }
            self.usage.input_uncached = match f.message_input_tokens {
                Some(v) => v,
                None => 0,
            };
            self.usage.cache_read = match f.message_cache_read_tokens {
                Some(v) => v,
                None => 0,
            };
            self.usage.cache_write = match f.message_cache_creation_tokens {
                Some(v) => v,
                None => 0,
            };
            self.got_usage = true;
            None
        } else if is_block {
            self.feed_pair(&f.delta_text, &f.delta_thinking)
        } else {
            if is_delta {
                if let Some(o) = f.output_tokens {
                    self.usage.output_tokens = o;
                    self.got_usage = true;
                }
            }
            None
        }
    }

    /// Takes what one event's payload reports: the model, the usage and the
    /// generated text, by the endpoint's protocol. Returns the repetition
    /// alert this event raised, if any.
    pub fn process_fields(&mut self, f: &EventFields) -> (r: Option<LoopAlert>)
        requires
            old(self).wf(),
        ensures
            final(self).wf(),
            opt_view(final(self).model) == model_after(old(self).protocol, opt_view(old(self).model), f@),
            final(self).usage == usage_after(old(self).protocol, old(self).usage, f@),
            final(self).got_usage == (old(self).got_usage || reports_usage(old(self).protocol, f@)),
            ({
                let (ta, tb) = event_texts(old(self).protocol, f@);
                let t0 = old(self).text_tail@;
                let al0 = old(self).alerted;
                let t1 = fed_tail(t0, ta);
                let al1 = fed_alerted(t0, al0, ta);
                &&& final(self).text_tail@ == fed_tail(t1, tb)
                &&& final(self).alerted == fed_alerted(t1, al1, tb)
                &&& alert_is(
                    r,
                    if feed_alert(t0, al0, ta) is Some {
                        feed_alert(t0, al0, ta)
                    } else {
                        feed_alert(t1, al1, tb)
                    },
                )
            }),
            final(self).request_id == old(self).request_id,
            final(self).protocol == old(self).protocol,
            final(self).http_status == old(self).http_status,
            final(self).ttft_ms == old(self).ttft_ms,
            final(self).sse_buf@ == old(self).sse_buf@,
            final(self).finalized == old(self).finalized,
    {
        match self.protocol {
            Protocol::Anthropic => self.process_anthropic(f),
            Protocol::OpenAi => self.process_openai(f),
        }
    }

    /// Takes what one event payload reports: `serde_json` parses it, and the
    /// values at their paths (see `payload_view`) are taken as
    /// `process_fields` takes them. A payload that is not JSON changes
    /// nothing. Returns the repetition alert this payload raised, if any.
    pub fn process_payload(&mut self, data: &str) -> (r: Option<LoopAlert>)
        requires
            old(self).wf(),
        ensures
            final(self).wf(),
            !json_parses(data@) ==> *final(self) == *old(self),
            final(self).reading() == after_payload(old(self).protocol, old(self).reading(), data@),
            alert_is(r, payload_alert(old(self).protocol, old(self).reading(), data@)),
            final(self).request_id == old(self).request_id,
            final(self).protocol == old(self).protocol,
            final(self).http_status == old(self).http_status,
            final(self).ttft_ms == old(self).ttft_ms,
            final(self).sse_buf@ == old(self).sse_buf@,
            final(self).finalized == old(self).finalized,
    {
        match ParsedJson::parse(data) {
            None => None,
            Some(p) => {
                let f = event_fields_of(&p);
                self.process_fields(&f)
            },
        }
    }

    /// Takes in one chunk of the response body without reading the events:
    /// records the time to the first byte on the first chunk, decodes the
    /// chunk (invalid UTF-8 replaced), frames the SSE events, and returns the
    /// payloads of the complete events in order. The incomplete rest stays
    /// buffered, unless it grew over `SSE_BUF_CAP` bytes, in which case it
    /// is dropped.
    pub fn take_payloads(&mut self, chunk: &[u8], elapsed_ms: i64) -> (r: Vec<String>)
        requires
            old(self).wf(),
        ensures
            final(self).wf(),
            vstd::utf8::valid_utf8(chunk@) ==> lossy_utf8(chunk@) == vstd::utf8::decode_utf8(chunk@),
            final(self).ttft_ms == if old(self).ttft_ms is None {
                Some(elapsed_ms)
            } else {
                old(self).ttft_ms
            },
            ({
                let (events, rest) = frame(old(self).sse_buf@ + lossy_utf8(chunk@));
                &&& r@.len() == payloads(events).len()
                &&& forall|k: int| 0 <= k < r@.len() ==> #[trigger] r@[k]@ == payloads(events)[k]
                &&& final(self).sse_buf@ == if utf8_len(rest) > SSE_BUF_CAP {
                    Seq::empty()
                } else {
                    rest
                }
            }),
            final(self).request_id == old(self).request_id,
            final(self).protocol == old(self).protocol,
            final(self).http_status == old(self).http_status,
            final(self).text_tail@ == old(self).text_tail@,
            final(self).model == old(self).model,
            final(self).usage == old(self).usage,
            final(self).got_usage == old(self).got_usage,
            final(self).alerted == old(self).alerted,
            final(self).finalized == old(self).finalized,
    {
        if self.ttft_ms.is_none() {
            self.ttft_ms = Some(elapsed_ms);
        }
        let text = utf8_lossy_string(chunk);
        let tc = chars_of(text.as_str());
        extend_chars(&mut self.sse_buf, tc.as_slice());
        let ghost combined = self.sse_buf@;
        let events = take_events(&mut self.sse_buf);
        let ghost evs = frame(combined).0;
        let mut out: Vec<String> = Vec::new();
        let m = events.len();
        assert(evs.take(0) =~= Seq::<Seq<char>>::empty());
        for k in 0..m
            invariant
                m == events@.len() == evs.len(),
                forall|q: int| 0 <= q < m ==> #[trigger] events@[q]@ == evs[q],
                out@.len() == payloads(evs.take(k as int)).len(),
                forall|q: int| 0 <= q < out@.len() ==> #[trigger] out@[q]@ == payloads(evs.take(k as int))[q],
        {
            assert(evs.take(k + 1).drop_last() =~= evs.take(k as int));
            assert(evs.take(k + 1).last() == evs[k as int]);
            match event_payload_of(events[k].as_slice()) {
                Some(d) => out.push(d),
                None => {},
            }
        }
        assert(evs.take(m as int) =~= evs);
        if utf8_len_exceeds(self.sse_buf.as_slice(), SSE_BUF_CAP) {
            self.sse_buf = Vec::new();
            assert(utf8_len(self.sse_buf@) == 0);
        }
        out
    }

    /// Takes in one chunk of the response body: frames it as `take_payloads`
    /// does, then takes what each complete event's payload reports, in
    /// order, as `process_payload` does. Returns the repetition alerts the
    /// chunk raised (at most one over the whole request).
    pub fn on_chunk(&mut self, chunk: &[u8], elapsed_ms: i64) -> (alerts: Vec<LoopAlert>)
        requires
            old(self).wf(),
        ensures
            final(self).wf(),
            vstd::utf8::valid_utf8(chunk@) ==> lossy_utf8(chunk@) == vstd::utf8::decode_utf8(chunk@),
            final(self).ttft_ms == if old(self).ttft_ms is None {
                Some(elapsed_ms)
            } else {
                old(self).ttft_ms
            },
            ({
                let (events, rest) = frame(old(self).sse_buf@ + lossy_utf8(chunk@));
                let ds = payloads(events);
                &&& final(self).reading() == after_payloads(old(self).protocol, old(self).reading(), ds)
                &&& alerts@.len() == payloads_alerts(old(self).protocol, old(self).reading(), ds).len()
                &&& forall|k: int| 0 <= k < alerts@.len() ==> alert_is(
                    Some(#[trigger] alerts@[k]),
                    Some(payloads_alerts(old(self).protocol, old(self).reading(), ds)[k]),
                )
                &&& final(self).sse_buf@ == if utf8_len(rest) > SSE_BUF_CAP {
                    Seq::empty()
                } else {
                    rest
                }
            }),
            final(self).request_id == old(self).request_id,
            final(self).protocol == old(self).protocol,
            final(self).http_status == old(self).http_status,
            final(self).finalized == old(self).finalized,
    {
        let ghost r0 = old(self).reading();
        let ds = self.take_payloads(chunk, elapsed_ms);
        let ghost dv = Seq::new(ds@.len() as nat, |k: int| ds@[k]@);
        assert(dv =~= payloads(frame(old(self).sse_buf@ + lossy_utf8(chunk@)).0));
        let ghost p = self.protocol;
        let ghost buf = self.sse_buf@;
        let ghost ttft = self.ttft_ms;
        assert(dv.take(0) =~= Seq::<Seq<char>>::empty());
        let mut alerts: Vec<LoopAlert> = Vec::new();
        let n = ds.len();
        for k in 0..n
            invariant
                n == ds@.len() == dv.len(),
                forall|q: int| 0 <= q < n ==> #[trigger] ds@[q]@ == dv[q],
                self.wf(),
                self.protocol == p,
                self.sse_buf@ == buf,
                self.ttft_ms == ttft,
                self.request_id == old(self).request_id,
                self.http_status == old(self).http_status,
                self.finalized == old(self).finalized,
                self.reading() == after_payloads(p, r0, dv.take(k as int)),
                alerts@.len() == payloads_alerts(p, r0, dv.take(k as int)).len(),
                forall|q: int| 0 <= q < alerts@.len() ==> alert_is(
                    Some(#[trigger] alerts@[q]),
                    Some(payloads_alerts(p, r0, dv.take(k as int))[q]),
                ),
        {
            assert(dv.take(k + 1).drop_last() =~= dv.take(k as int));
            assert(dv.take(k + 1).last() == dv[k as int]);
            let a = self.process_payload(ds[k].as_str());
            match a {
                Some(x) => alerts.push(x),
                None => {},
            }
        }
        assert(dv.take(n as int) =~= dv);
        alerts
    }

    /// Ends the request: the first call yields the request's record (see
    /// `final_status` for its status) and marks the tap finalized; every
    /// later call yields nothing and changes nothing.
    pub fn finalize(&mut self, status: &str, error: Option<String>, duration_ms: i64) -> (r: Option<FinishRequest>)
        requires
            old(self).wf(),
        ensures
            final(self).wf(),
            old(self).finalized ==> r is None && *final(self) == *old(self),
            !old(self).finalized ==> {
                &&& final(self).finalized
                &&& r matches Some(rec) && {
                    &&& rec.id == old(self).request_id
                    &&& rec.status@ == final_status(status@, old(self).http_status)
                    &&& rec.http_status == old(self).http_status
                    &&& rec.ttft_ms == old(self).ttft_ms
                    &&& rec.duration_ms == Some(duration_ms)
                    &&& opt_view(rec.model) == opt_view(old(self).model)
                    &&& rec.input_uncached == old(self).usage.input_uncached
                    &&& rec.cache_read == old(self).usage.cache_read
                    &&& rec.cache_write == old(self).usage.cache_write
                    &&& rec.output_tokens == old(self).usage.output_tokens
                    &&& rec.loop_alert == old(self).alerted
                    &&& opt_view(rec.error) == opt_view(error)
                }
                &&& final(self).request_id == old(self).request_id
                &&& final(self).protocol == old(self).protocol
                &&& final(self).http_status == old(self).http_status
                &&& final(self).ttft_ms == old(self).ttft_ms
                &&& final(self).sse_buf@ == old(self).sse_buf@
                &&& final(self).model == old(self).model
                &&& final(self).usage == old(self).usage
                &&& final(self).got_usage == old(self).got_usage
                &&& final(self).text_tail@ == old(self).text_tail@
                &&& final(self).alerted == old(self).alerted
            },
    {
        if self.finalized {
            return None;
        }
        self.finalized = true;
        let http_failed = match self.http_status {
            Some(c) => c >= 400,
            None => false,
        };
        let status_text = if str_eq(status, "ok") && http_failed {
            "error".to_owned()
        } else {
            status.to_owned()
        };
        Some(
            FinishRequest {
                id: self.request_id,
                status: status_text,
                http_status: self.http_status,
                ttft_ms: self.ttft_ms,
                duration_ms: Some(duration_ms),
                model: clone_opt_string(&self.model),
                input_uncached: self.usage.input_uncached,
                cache_read: self.usage.cache_read,
                cache_write: self.usage.cache_write,
                output_tokens: self.usage.output_tokens,
                loop_alert: self.alerted,
                error,
            },
        )
    }
}

/// How the stream is cut into chunks does not change what is parsed: taking
/// in the text `a` and then `b` yields the payloads that taking in `a`
/// followed by `b` at once yields, in the same order, and leaves the same
/// rest. (`on_chunk` keeps the rest between chunks unless it is over
/// `SSE_BUF_CAP` bytes.)
pub proof fn lemma_chunking_does_not_matter(buf: Seq<char>, a: Seq<char>, b: Seq<char>)
    ensures
        payloads(frame(buf + a).0) + payloads(frame(frame(buf + a).1 + b).0) == payloads(
            frame(buf + a + b).0,
        ),
        frame(frame(buf + a).1 + b).1 == frame(buf + a + b).1,
{
    lemma_frame_append(buf + a, b);
    lemma_payloads_append(frame(buf + a).0, frame(frame(buf + a).1 + b).0);
}

/// The same for chunks of bytes that are each valid UTF-8: two chunks parse
/// as their concatenation does.
pub proof fn lemma_valid_chunks_parse_alike(buf: Seq<char>, a: Seq<u8>, b: Seq<u8>)
    requires
        vstd::utf8::valid_utf8(a),
        vstd::utf8::valid_utf8(b),
    ensures
        ({
            let da = vstd::utf8::decode_utf8(a);
            let db = vstd::utf8::decode_utf8(b);
            let dab = vstd::utf8::decode_utf8(a + b);
            &&& payloads(frame(buf + da).0) + payloads(frame(frame(buf + da).1 + db).0)
                == payloads(frame(buf + dab).0)
            &&& frame(frame(buf + da).1 + db).1 == frame(buf + dab).1
        }),
{
    let da = vstd::utf8::decode_utf8(a);
    let db = vstd::utf8::decode_utf8(b);
    lemma_decode_utf8_append(a, b);
    assert(buf + (da + db) =~= buf + da + db);
    lemma_chunking_does_not_matter(buf, da, db);
}

/// Reading two runs of payloads in turn is reading them together.
pub proof fn lemma_after_payloads_append(p: Protocol, s: TapReading, d1: Seq<Seq<char>>, d2: Seq<Seq<char>>)
    ensures
        after_payloads(p, s, d1 + d2) == after_payloads(p, after_payloads(p, s, d1), d2),
        payloads_alerts(p, s, d1 + d2) == payloads_alerts(p, s, d1) + payloads_alerts(
            p,
            after_payloads(p, s, d1),
            d2,
        ),
    decreases d2.len(),
{
    if d2.len() == 0 {
        assert(d1 + d2 =~= d1);
        assert(payloads_alerts(p, s, d1) + Seq::<(Seq<char>, int)>::empty() =~= payloads_alerts(
            p,
            s,
            d1,
        ));
    } else {
        assert((d1 + d2).drop_last() =~= d1 + d2.drop_last());
        assert((d1 + d2).last() == d2.last());
        lemma_after_payloads_append(p, s, d1, d2.drop_last());
        let s1 = after_payloads(p, s, d1);
        match payload_alert(p, after_payloads(p, s1, d2.drop_last()), d2.last()) {
            Some(x) => {
                assert(payloads_alerts(p, s, d1) + payloads_alerts(p, s1, d2.drop_last()).push(x)
                    =~= (payloads_alerts(p, s, d1) + payloads_alerts(p, s1, d2.drop_last())).push(
                    x,
                ));
            },
            None => {},
        }
    }
}

/// How the stream is cut into chunks does not change what the tap reads:
/// taking in the text `a` and then `b` leaves the tap with the model,
/// usage, tail and alert state, and raises the alerts, that taking in `a`
/// followed by `b` at once does (while the rest between them is kept).
pub proof fn lemma_chunking_reads_alike(p: Protocol, s: TapReading, buf: Seq<char>, a: Seq<char>, b: Seq<char>)
    ensures
        ({
            let d1 = payloads(frame(buf + a).0);
            let d2 = payloads(frame(frame(buf + a).1 + b).0);
            let d = payloads(frame(buf + a + b).0);
            let s1 = after_payloads(p, s, d1);
            &&& after_payloads(p, s1, d2) == after_payloads(p, s, d)
            &&& payloads_alerts(p, s, d1) + payloads_alerts(p, s1, d2) == payloads_alerts(p, s, d)
        }),
{
    lemma_chunking_does_not_matter(buf, a, b);
    let d1 = payloads(frame(buf + a).0);
    let d2 = payloads(frame(frame(buf + a).1 + b).0);
    lemma_after_payloads_append(p, s, d1, d2);
}

/// What `String::from_utf8_lossy` decodes `bytes` to.
pub uninterp spec fn lossy_utf8(bytes: Seq<u8>) -> Seq<char>;

/// `String::from_utf8_lossy` from std: decodes UTF-8, replacing invalid
/// sequences with U+FFFD. Claimed: the result is `lossy_utf8(bytes)`, and
/// valid UTF-8 decodes to exactly its characters. The replacement rule for
/// invalid input is not stated.
#[verifier::external_body]
fn utf8_lossy_string(bytes: &[u8]) -> (s: String)
    ensures
        s@ == lossy_utf8(bytes@),
        vstd::utf8::valid_utf8(bytes@) ==> s@ == vstd::utf8::decode_utf8(bytes@),
{
    String::from_utf8_lossy(bytes).into_owned()
}

} // verus!
