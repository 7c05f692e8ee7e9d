# ominiforge

The decision core of an agent platform's gateway, written in Verus. The
functions under `src/` carry `requires`/`ensures` contracts, and the
properties the platform promises across calls stand as `law_*` proof
functions beside the code they are about. Verus proves all of them except
what it takes on trust, which is kept apart and named: calls into
`serde_json`, `ulid`, `chrono` and std functions that vstd leaves
unspecified go through small `#[verifier::external_body]` wrappers (or an
`assume_specification`), each with a doc comment saying what its contract
claims of the outside function. Two of those wrappers use one-for-one
converters between the library's JSON model and `serde_json::Value`, which
have no contract of their own.

## Layout

- `src/` — the verified library.
  - `permission` — the tool-call gate: rules, policies, evaluation, layering.
  - `hook` — hook points, the priority-ordered registry, the before-chain
    state machine, shell-hook requests and stdout decisions, `hooks.toml`
    merging and routing.
  - `wire` — the Chat Completions wire format: request messages, the SSE
    decoder and the streaming chunk assembler.
  - `view` and `plan` — the conversation fold over a session's events.
  - `turns` — the open turn, dangling tool calls, and the session actor's
    decision state.
  - `workspace`, `workspace_config`, `env`, `sandbox`, `lsp`, `status`,
    `monitor`, `approval`, `gateway`, `store`, `session` — workspace ids and
    grouping, mounts and network overrides, environment detection, backend
    selection, language-server routing and diagnostics rendering, session
    status, usage counting, approval outcomes, admission and replay, and
    session file layout.
  - `text` and `json` — the string and JSON models the rest is stated over.
- `app/` — the binary and the I/O around the library: configuration files,
  `workspaces.json`, shell-hook processes, the status broadcast, the actor
  loop, cost accounting in floating point.
- `tests/` — executable tests of the library.
