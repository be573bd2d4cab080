# codeg

The decision core of a coding-agent workspace, verified with Verus.

| Part | What it decides |
| --- | --- |
| `src/acp/delegation` | the companion's JSON-RPC protocol: requests, calls in flight, cancellation |
| `src/acp/lifecycle.rs` | which connection events matter, which rows they change, when a worker goes away |
| `src/chat_channel/session.rs` | chat sessions on agent connections, and what is said about them |
| `src/chat_channel/tool_detail.rs`, `completion.rs` | one-line descriptions of tool calls, delegations and turns |
| `src/chat_channel/welink.rs`, `history.rs`, `cli.rs`, `html.rs`, `chunks.rs` | the WeLink channel: polling, sender filters, markup, message pieces |
| `src/web/app_update.rs` | in-place update, restart and rollback, one at a time |
| `src/json.rs`, `keyed.rs`, `text.rs`, `decimal.rs` | values that the rest is built on |

Each function says in its contract what it returns, over spec functions that
stand beside it. Properties that span functions are public proof functions
(`lemma_*`).

`app/` is the host: sockets, processes, clocks, channels and tasks. It performs
what the library asks for and hands back what came of it. `tests/` runs the
library with its outside crates.
