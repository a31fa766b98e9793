//! Reading an event payload's JSON: `serde_json` parses it, and the tap reads
//! the values it needs by JSON pointer.
use vstd::prelude::*;

use serde_json::Value;

use crate::proxy::{opt_view, EventFields, EventView};

verus! {

broadcast use vstd::string::group_string_axioms;

/// `serde_json::Value`.
#[verifier::external_type_specification]
#[verifier::external_body]
pub struct ExJsonValue(Value);

/// Whether `serde_json` parses `text` as JSON.
pub uninterp spec fn json_parses(text: Seq<char>) -> bool;

/// The string at `pointer` in the JSON `text` (`None` where there is no
/// value there, or a value of another type).
pub uninterp spec fn json_str_at(text: Seq<char>, pointer: Seq<char>) -> Option<Seq<char>>;

/// The `i64` at `pointer` in the JSON `text` (`None` where there is no value
/// there, or one that is not an integer that fits `i64`).
pub uninterp spec fn json_i64_at(text: Seq<char>, pointer: Seq<char>) -> Option<i64>;

/// Whether the value at `pointer` in the JSON `text` is an object.
pub uninterp spec fn json_is_object_at(text: Seq<char>, pointer: Seq<char>) -> bool;

/// Whether the value at `pointer` in the JSON `text` is an array.
pub uninterp spec fn json_is_array_at(text: Seq<char>, pointer: Seq<char>) -> bool;

/// A JSON text together with its parse. Only `parse` makes one, so `value`
/// is always what `serde_json` parses `text` to.
pub struct ParsedJson<'a> {
    text: &'a str,
    value: Value,
}

impl<'a> ParsedJson<'a> {
    /// The text that was parsed.
    pub closed spec fn source(&self) -> Seq<char> {
        self.text@
    }

    /// `serde_json::from_str::<Value>`: parses `text`. Claimed: it succeeds
    /// exactly when `json_parses(text)`, and the result stands for `text`.
    #[verifier::external_body]
    pub fn parse(text: &'a str) -> (r: Option<ParsedJson<'a>>)
        ensures
            r is Some <==> json_parses(text@),
            r matches Some(p) ==> p.source() == text@,
    {
        match serde_json::from_str::<Value>(text) {
            Ok(value) => Some(ParsedJson { text, value }),
            Err(_) => None,
        }
    }

    /// `Value::pointer` then `Value::as_str` from `serde_json`. Claimed: the
    /// result is `json_str_at` of the parsed text and the pointer.
    #[verifier::external_body]
    pub fn str_at(&self, pointer: &str) -> (r: Option<String>)
        ensures
            opt_view(r) == json_str_at(self.source(), pointer@),
    {
        match self.value.pointer(pointer) {
            Some(v) => match v.as_str() {
                Some(s) => Some(s.to_string()),
                None => None,
            },
            None => None,
        }
    }

    /// `Value::pointer` then `Value::as_i64` from `serde_json`. Claimed: the
    /// result is `json_i64_at` of the parsed text and the pointer.
    #[verifier::external_body]
    pub fn i64_at(&self, pointer: &str) -> (r: Option<i64>)
        ensures
            r == json_i64_at(self.source(), pointer@),
    {
        match self.value.pointer(pointer) {
            Some(v) => v.as_i64(),
            None => None,
        }
    }

    /// `Value::pointer` then `Value::is_object` from `serde_json`. Claimed:
    /// the result is `json_is_object_at` of the parsed text and the pointer
    /// (false where there is no value).
    #[verifier::external_body]
    pub fn is_object_at(&self, pointer: &str) -> (r: bool)
        ensures
            r == json_is_object_at(self.source(), pointer@),
    {
        match self.value.pointer(pointer) {
            Some(v) => v.is_object(),
            None => false,
        }
    }

    /// `Value::pointer` then `Value::is_array` from `serde_json`. Claimed:
    /// the result is `json_is_array_at` of the parsed text and the pointer
    /// (false where there is no value).
    #[verifier::external_body]
    pub fn is_array_at(&self, pointer: &str) -> (r: bool)
        ensures
            r == json_is_array_at(self.source(), pointer@),
    {
        match self.value.pointer(pointer) {
            Some(v) => v.is_array(),
            None => false,
        }
    }
}

/// The string at `pointer` below the first element of the `choices` array
/// (`choices[0]...`): nothing unless `choices` is an array.
pub open spec fn choice_str_at(text: Seq<char>, pointer: Seq<char>) -> Option<Seq<char>> {
    if json_is_array_at(text, "/choices"@) {
        json_str_at(text, pointer)
    } else {
        None
    }
}

/// What an event's JSON payload `text` reports: each field is the value at
/// its path.
pub open spec fn payload_view(text: Seq<char>) -> EventView {
    EventView {
        kind: json_str_at(text, "/type"@),
        model: json_str_at(text, "/model"@),
        message_model: json_str_at(text, "/message/model"@),
        choice_content: choice_str_at(text, "/choices/0/delta/content"@),
        choice_reasoning: choice_str_at(text, "/choices/0/delta/reasoning_content"@),
        delta_text: json_str_at(text, "/delta/text"@),
        delta_thinking: json_str_at(text, "/delta/thinking"@),
        usage_is_object: json_is_object_at(text, "/usage"@),
        prompt_tokens: json_i64_at(text, "/usage/prompt_tokens"@),
        cached_tokens: json_i64_at(text, "/usage/prompt_tokens_details/cached_tokens"@),
        prompt_cache_hit_tokens: json_i64_at(text, "/usage/prompt_cache_hit_tokens"@),
        completion_tokens: json_i64_at(text, "/usage/completion_tokens"@),
        output_tokens: json_i64_at(text, "/usage/output_tokens"@),
        message_input_tokens: json_i64_at(text, "/message/usage/input_tokens"@),
        message_cache_read_tokens: json_i64_at(text, "/message/usage/cache_read_input_tokens"@),
        message_cache_creation_tokens: json_i64_at(
            text,
            "/message/usage/cache_creation_input_tokens"@,
        ),
    }
}

/// The string at `pointer` below `choices[0]`, read only where `choices` is
/// an array (an object's key `"0"` is not its first element).
fn choice_str(p: &ParsedJson, pointer: &str) -> (r: Option<String>)
    ensures
        opt_view(r) == choice_str_at(p.source(), pointer@),
{
    if p.is_array_at("/choices") {
        p.str_at(pointer)
    } else {
        None
    }
}

/// The fields the tap reads from a parsed payload.
pub fn event_fields_of(p: &ParsedJson) -> (f: EventFields)
    ensures
        f@ == payload_view(p.source()),
{
    EventFields {
        kind: p.str_at("/type"),
        model: p.str_at("/model"),
        message_model: p.str_at("/message/model"),
        choice_content: choice_str(p, "/choices/0/delta/content"),
        choice_reasoning: choice_str(p, "/choices/0/delta/reasoning_content"),
        delta_text: p.str_at("/delta/text"),
        delta_thinking: p.str_at("/delta/thinking"),
        usage_is_object: p.is_object_at("/usage"),
        prompt_tokens: p.i64_at("/usage/prompt_tokens"),
        cached_tokens: p.i64_at("/usage/prompt_tokens_details/cached_tokens"),
        prompt_cache_hit_tokens: p.i64_at("/usage/prompt_cache_hit_tokens"),
        completion_tokens: p.i64_at("/usage/completion_tokens"),
        output_tokens: p.i64_at("/usage/output_tokens"),
        message_input_tokens: p.i64_at("/message/usage/input_tokens"),
        message_cache_read_tokens: p.i64_at("/message/usage/cache_read_input_tokens"),
        message_cache_creation_tokens: p.i64_at("/message/usage/cache_creation_input_tokens"),
    }
}

} // verus!
