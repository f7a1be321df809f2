# HiRoute

HiRoute routes the model requests of coding agents through plans, and configures the agents for it.
This crate is its logic, verified with Verus:

- `src/runtime/`: one request's way through a plan. Which candidate and credential comes next, what
  a failure rests and for how long, how an attempt is put together, what of a response is held
  back until it says something, and how it is then sent.
- `src/agents/`: what is configured for Codex and for the other supported agent, who configured it,
  how a change is made and how it is undone; which models a client is offered; how an installed
  agent is found, launched and checked.
- `src/server.rs`: the gateway's launch fixture, its identity and its readiness.
- `src/text.rs`, `json.rs`, `toml.rs`, `tree.rs`, `sheets.rs`, `paths.rs`, `uri.rs`, `digest.rs`:
  the values that these speak of. Calls into `serde_json`, `toml_edit`, `http` and `sha2` stand here, each with what
  is believed of it.

`app/` performs what the library decides: it reads files, starts processes, serves sockets and
asks the gateway's ports. `tests/` runs the library on concrete values.
