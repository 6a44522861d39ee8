# codex_copilot

Verified parsing and decision logic for GitHub Copilot support in a coding
agent, written in Verus.

- `src/quota.rs` — `x-quota-snapshot-*` response headers and their
  `ent=…&ov=…&ovPerm=…&rem=…&rst=…` values.
- `src/auth.rs` — the Copilot user-info document, what to do with each answer
  of the user-info endpoint, and the steps of the token lookup (keyring, then
  the macOS `security` command).
- `src/provider.rs` — the built-in model providers, Copilot among them.
- `src/json.rs`, `src/keyed.rs`, `src/text.rs`, `src/numbers.rs` — the JSON
  model, a text-keyed map, and character/number helpers.
- `src/outside.rs`, `src/std_calls.rs` — the calls into `http`,
  `urlencoding` and `std`, with the contracts the library relies on.
- `app/` — the network and process I/O around the library, and conversions
  to `f64` and from `serde_json::Value`.
