# seanvim

A Neovim plugin that runs Rust futures on the editor's libuv loop, and calls
Ollama over a TCP stream built on that loop. The logic is a library verified with
Verus; `app/` is the plugin around it.

- `src/reads.rs`: bytes that have arrived and wait to be read
- `src/tcp.rs`, `src/connect.rs`: a poll-based stream over libuv's callbacks
- `src/executor.rs`, `src/pool.rs`, `src/waker.rs`: the executor and its tasks
- `src/window.rs`, `src/commands.rs`, `src/config.rs`: what the editor sees
- `src/ollama.rs`, `src/http.rs`, `src/json.rs`: the calls to Ollama

`:SeanOllama` asks Ollama to introduce itself and keeps the answer in the register `o`.
`require("seanvim").ollama_generate()` sends a system prompt and up to fifteen lines above
the cursor, and inserts the answer into the buffer. Both call the address that the option
`url` gives, or a fixed one.

The proof functions whose names begin with `law_` state what holds of the library
as a whole. What is assumed of outside crates stands in `pool.rs`, `http.rs`,
`json.rs`, `config.rs` and `executor.rs`, at the items marked `external_body` or
`assume_specification`.
