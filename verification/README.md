# agents_core

The core of an agents runtime, written in Verus: agents that call models and
tools, hand off to one another, are checked by guardrails, pause for
approvals, run other agents as tools, and leave results and durable states a
later run can resume from.

- `src/` is the verified library. Every decision of a run stands there with a
  contract: the turn loop as a machine (`run_driver`, over the bookkeeping of
  `run_flow`) with its lifecycle hooks, token usage, turn-budget handler and
  approval pauses, the run context a durable state keeps, handoff history
  rewriting, guardrail verdicts, tool-use
  behavior, approvals and resumption, agents called as tools, conversation
  tracking with a server, replay of generated items, sessions, strict JSON
  schemas, MCP tool filtering, and the local sandbox (path resolution, shell
  confinement, snapshots).
- `app/` is the ordinary Rust around it: it awaits models, tools and
  guardrail checks, touches the file system and runs processes, and hands
  what it got back to the library.
- `tests/` runs the library on concrete values.
- `repl` holds the decision of the interactive demo loop on each typed line.
