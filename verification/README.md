# llm-monitor

A local reverse proxy for LLM agents. Point an agent's base URL at
`http://127.0.0.1:8787/<endpoint-id>`; the proxy swaps in the real API key,
streams the response through untouched, and records each request's model,
token usage (uncached input, cache read, cache write, output), time to first
byte and duration in a SQLite ledger. A repetition guard raises an alert when
the streamed text falls into a loop.

Layout:

- `src/` — the verified library:
  - `guard` — the repetition detector and how a unit is shown in alerts;
  - `sse` — SSE framing and event payloads;
  - `json` — reading an event payload's JSON (parsed by `serde_json`);
  - `proxy` — the tap on a response stream: usage accounting per protocol,
    the bounded text tail, the time to first byte, the request's record;
  - `upstream` — the upstream URL, header filtering and credentials;
  - `commands` — the rules for saving an endpoint, the statistics window;
  - `db` — the ledger's rows, key masking, the wall clock;
  - `text` — character, whitespace and UTF-8 helpers.
- `app/` — the program: the axum/reqwest proxy server, the rusqlite ledger,
  and the panel commands.
- `tests/` — tests of the library.
