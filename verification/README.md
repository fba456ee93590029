# engram_mcp

A small persistent memory for Model Context Protocol agents: memories are
remembered with a retention tier, weakened and reinforced in retention cycles,
recalled strongest first, and dropped once their retention falls below 1.0.

## Layout

- `src/` — the verified library (Verus):
  - `text.rs` — Unicode white space, trimming, blank checks.
  - `memory_store.rs` — the stored document, its rules and its validation.
    Retention is held in tenths (`0..=1500` for `0.0..=150.0`).
  - `memory.rs` — the memory rules: pruning, recall order, weakening,
    reinforcement, forgetting, and the decisions behind each request;
    laws on recall order, once-per-cycle reinforcement and the stored form.
  - `ids.rs` — base-36 memory ids from strictly increasing timestamps.
  - `command_line.rs` — the `--file <path>` startup option.
- `app/` — the program around it: the JSON file store (serde, float
  retention), the async memory service (tokio), the MCP server (rmcp) and
  `main`.
- `tests/` — tests of the library.
