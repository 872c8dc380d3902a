# claude_code_agent_sdk

SDK core for driving the agent command-line interface over its stream-JSON
control protocol, written in Verus.

## Layout

- `src/` — the verified library:
  - `version.rs` — semantic-version parsing, the minimum-version check, validation
    of install version strings, extraction of the version from `--version` output.
  - `mcp.rs` — the `mcp__acp__` tool-name prefix, MCP configuration types, and the
    dispatch of requests to in-process MCP servers.
  - `control.rs` — dispatch of control requests from the CLI, classification of
    incoming messages, ID counters for requests and hook callbacks.
  - `routing.rs` — query-scoped routing of conversation messages and the list of
    control requests awaiting a response.
  - `ring_buffer.rs` — a fixed-capacity circular byte buffer with line reading,
    backed by `ringbuf`.
  - `options.rs`, `session.rs` — option checks before a session starts, the
    connection state of a client, and the session-to-query map (backed by `dashmap`).
  - `hooks.rs` — hook types and the per-event table of hook matchers.
  - `text.rs`, `errors.rs` — string helpers and the error type.
- `tests/` — tests run against the compiled library.
- `app/` — the runtime layer: serde representations, the in-process MCP server,
  execution of control decisions over channels, and the hooks builder.
