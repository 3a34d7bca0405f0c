# opto_sync_cli

The verified core of the `opto-sync` command line: validation of JSON documents,
policy traces and Cargo lock files, deterministic replay of policy traces, redacted
inspection of JSON shape, and the bounded, versioned JSON responses.

- `src/` — the library, verified with Verus:
  - `error.rs` failure classes, their machine codes, messages and exit statuses;
  - `input.rs` the bounded path policy (containment beneath the root, regular files,
    byte bounds);
  - `json.rs` the JSON document model, JSON parsing (through serde_json), sensitive-key
    detection and shape inspection;
  - `traces.rs` trace-set checks and replay against the policy's decisions;
  - `lock.rs` Cargo lock checks (format version, engine uniqueness, pinned Git sources);
  - `request.rs` the request, the response envelopes and `execute`;
  - `text.rs`, `bytes.rs` decimal and JSON string text, byte-string helpers;
  - `laws.rs` properties that span several functions.
- `app/` — the program: argument parsing, file access, parsing of trace and TOML files, the policy's transition function, and output.
- `tests/` — tests of the library on concrete values.
