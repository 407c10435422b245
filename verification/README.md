# sophon_sdk

A library for running agent sessions, programs and kernels under durable custody. Every rule of it
is written in Verus: functions state what they return and change, and Verus proves it.

## Layout

`src/` is the library.

- `text`, `text_map`, `digest`, `json`: texts, ordered maps keyed by text, framed digests and JSON
  documents. The calls into `sha2`, `serde_json` and the standard library's UTF-8 functions stand
  here.
- `conformance`: what the conformance suites share.
- `evolution`: ledgers of harness refinements. `entry`, `edit`, `event` and `state` hold the values
  and the transitions, `wire` and `decode` the documents, `supplement` and `settling` the section of
  a prompt that carries a ledger, `planner` the prompts that ask for refinements, `soundness` what
  always succeeds, `identity` what an event's identity tells, `store`, `script` and `conformance`
  the durable authority and its suite.
- `harness`: immutable snapshots under the address of their content, their store and its suite.
- `activation`: leases on due work, with fencing tokens, and the suite of a coordinator.
- `artifact`: content-addressed artifacts and what a vault promises.
- `program`, `kernel`: custody of processes and of persistent kernels: captures, frames, receipts,
  settlement and reconciliation.
- `session`: turn ledgers, rewinds, journals, routes, bindings and the worker's lifecycle.
- `capability`, `mcp`, `schema`: capability layers, the tool protocol, and the schema of a database.

`tests/` runs the library. `app/` is ordinary Rust around it: SQLite stores, processes and threads,
JSON records, the agent protocol and the asynchronous runtime.

## Reading the contracts

Each type has a view made of sequences, maps and integers, and contracts speak of views. What can be
wrong with a value is a spec function whose name ends in `fault`; the words of every error are part
of it. A trait such as `EvolutionStore` has three spec methods: `lawful`, which says that an
implementation keeps the contract, what it stores, and `calls`, which tells what it was asked and
what it answered. A conformance suite follows a script: a spec function judges every call by itself
and by the answers before it, and the suite's outcome is that judgement, whatever implementation it
is run on. Properties that span several functions are
the proof functions whose names begin with `law_`.
