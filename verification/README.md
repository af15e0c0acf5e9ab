# AgentGate

A gateway between AI agents and the tool servers (MCP) that they call. It looks
at every `tools/call`, holds it against a policy of declarative rules, rate
limits and circuit breakers, answers what it refuses, strikes secrets out of
results before the agent sees them, and keeps a record of everything in SQLite.

The rules of the gateway are a library in Verus under `src/`: what each function
does is stated in its contract and proved. `app/` is the program around it:
files, pipes, sockets, the database, the command line.

## The library

| Module      | What it holds                                                                 |
| ----------- | ----------------------------------------------------------------------------- |
| `policy`    | rules, the language of their conditions, the engine that decides, redaction    |
| `ratelimit` | token buckets, limits over all tools and for each, circuit breakers            |
| `protocol`  | JSON-RPC messages and the lines that carry them                                |
| `json`      | JSON values; `document` is how `serde_json` holds, reads and prints them       |
| `proxy`     | the evaluation of a call; the stdio, SSE and HTTP transports                   |
| `storage`   | records of calls, the rows that keep them, the queries for them                |
| `dashboard` | who may see the dashboard, and what it answers                                 |
| `config`    | settings and their defaults                                                    |
| `cli`       | what the arguments mean, and what the commands print                           |
| `clock`     | clocks, dates, ids; `pattern`: regular expressions; `text`, `chars`: text      |

What holds of the library as a whole is stated in public proof functions whose
names begin with `law_`: that a tool denied without a condition is never called,
that a response meets its call, that a condition is read as it was written, that
a refused caller who waits as long as told is let through.

A policy, for example:

```toml
[[rules]]
id     = "no-shell"
tool   = "bash"
action = "deny"
reason = "Shell access is disabled for this agent."

[[rules]]
id        = "no-night-writes"
tool      = "write_file"
action    = "deny"
condition = "time.hour < 6 or arguments.path matches '^/etc'"

[[rules]]
id      = "redact-keys"
action  = "redact"
pattern = "sk-[A-Za-z0-9]{20,}"
```

Rules are asked from top to bottom; the first that settles the call decides. A
rule without a tool is for every tool, and one with a `tool_prefix` for those whose
names begin so.

## What is taken on trust

The calls into `serde_json`, `regex`, `chrono`, `uuid`, `mime_guess` and a few
functions of the standard library stand in wrappers or declarations whose doc
comments say what is claimed of them: in `document.rs`, `pattern.rs`, `clock.rs`,
`dashboard/server.rs`, `text.rs` and `chars.rs`. Everything else is proved.
