# traitclaw

The logic of an LLM agent framework, written in Verus and proved against its
contracts, with the asynchronous runtime around it in ordinary Rust.

## Layout

- `src/` — the verified library. Messages and token estimates, tool
  registries, context pruning (sliding window, rule-based compression,
  summarisation), text chunking, grounding of retrieved documents, output
  transformers, retry backoff, in-memory agent memory, MCP tool aggregation,
  evaluation helpers, token counting with `tiktoken-rs`, and the decisions of
  the agent loop, of streaming and of structured output. Each public function
  states what it returns over spec functions; the laws that span functions
  are public proof functions whose names start with `law_`.
- `tests/` — tests run against the compiled library.
- `app/` — the runtime: provider, tool and memory interfaces, the agent and
  its builder, the drivers of the loops, MCP servers over stdio, SQLite
  memory, retrievers and the evaluation runner. It performs the I/O, the
  awaits and the float arithmetic; the steps of the agent loop (when to call
  the model again, when a text answer ends the run, how usage adds up, when
  the iteration limit is reached) are the library's `RunState`.

## Trusted code

Calls into `std`, `serde_json`, `tiktoken-rs` and `tracing` go through a few
`#[verifier::external_body]` wrappers and one external type declaration;
their contracts are stated in their doc comments.
