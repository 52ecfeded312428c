# cbs

A hermetic build system. Targets are described in `BUILD.ccl` files below a
`WORKSPACE.ccl`; plugins say how each kind of target is configured, planned and
built; an executor works through the graph of what depends on what.

The library under `src/` is written in Verus: every function states what it
returns or changes, over mathematical views of its arguments, and is proved to
do so; only of the calls into other crates it is stated alone. Files, processes,
sockets and dynamic libraries are not its business. A function that has to know
something of the machine takes what is `Known` and, where that is not enough,
stops with the `Question` to be answered; whoever called it finds the answer,
adds it to what is known, and calls again. What evaluates expressions or works
through tasks is a machine that is handed events and says what to do next.

- `text`, `table`, `value`, `path`, `digest`, `documents`, `error`: values and
  texts, and the few calls into other crates that read or write documents.
- `host`, `tools`, `platform`, `tool_diagnostics`, `actions`: what is asked of
  the machine, which tools a build may use, and the commands it runs.
- `ccl`, `config_file`, `workspace_config`, `workspace`, `packages`, `labels`,
  `rules`: the configuration language and what its files say.
- `model`, `context`, `task`, `graph`, `reach`, `readiness`, `executor`,
  `assembly`, `invocation`, `build_cache`: targets, tasks, and how a build runs.
- `plugin_abi`, `rust_plugin`, `bus_plugin`, `cargo`: the plugins.
- `bus_rpc`, `load_balancer`, `rainbow`: the service side.
- `command`: the command line.

Public proof functions whose names begin with `law_` state what holds across
functions. `app/` is the program around the library, in ordinary Rust.
