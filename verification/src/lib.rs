//! The verified core of LLM Monitor, a local reverse proxy that counts the
//! tokens of LLM requests: the repetition guard, the SSE tap with its usage
//! accounting, the forwarding rules, the endpoint rules and the ledger rows.
use vstd::prelude::*;

pub mod commands;
pub mod db;
pub mod guard;
pub mod json;
pub mod proxy;
pub mod sse;
pub mod text;
pub mod upstream;

verus! {
}
