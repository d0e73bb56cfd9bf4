# Strata

A small, model-agnostic agent runtime kernel, verified with Verus.

The agent loop calls a provider, turns tool calls into actions, runs the tools,
feeds every result (errors included) back into the conversation, and stops on a
plain-text answer or after `max_turns` tool rounds.

## Layout

- `src/` — the verified library.
  - `run.rs`: the loop; its contract covers the history (append-only), the turn
    counter, the early stop at `max_turns`, the requests handed to the provider,
    the replies and actions each round took, the tool results filed, and the
    answer. `take_reply` is the step that handles one provider outcome.
  - `message.rs`, `session.rs`, `action.rs`, `tool.rs`, `provider.rs`,
    `trace.rs`, `error.rs`: the message model, session state, action extraction
    and validation, the tool registry, the provider boundary, trace events and
    the error taxonomy.
  - `json.rs`: JSON values as plain data; JSON text goes through `serde_json`.
  - `text.rs`: characters, decimals, trimming, ordering and sorting of texts.
  - `tools/`: the calculator's grammar (an expression is compiled into postfix
    ops), the file tools' path resolution and answers, the steps of a file
    tool call (`fs_write.rs` for `write_file`, `fs_steps.rs` for `read_file` and
    `list_dir`: the library decides, the caller touches the file system), and the
    shell tool's arguments, working directory, waiting steps and report.
  - `providers/deepseek.rs`: the DeepSeek request body, the reply decoding and
    the HTTP status handling.
- `app/` — the I/O around the library: console tracing, file-system and process
  work, HTTP, serialisation copies of the message types, and the calculator's
  floating-point evaluation.
- `tests/` — tests of the library, with scripted providers and tracers.
