# temporal-agent-rs

Durable AI agent execution on [Temporal](https://temporal.io) with
[AutoAgents](https://github.com/liquidos-ai/AutoAgents) for providers and tools.

The agent loop asks the model, runs the tools that it calls for, shows it their
results and asks again, until there is a final answer or the cap on turns is
reached. The loop is a state machine without I/O, verified with Verus: each step
takes one recorded event and says what the worker does next, so a run that was
interrupted resumes from its recorded events.

- `src/` is the library. `workflow` holds the loop, `replay` what holds of whole
  runs, `llm` the parser of replies, `memory` the compaction of long histories,
  `tool`, `activities` and `builder` the worker's side, `json` the functions of
  `serde_json` that the proofs take on trust.
- `tests/` runs the library.
- `app/` is the worker: Temporal workflow and activities, calls to the provider
  and to tools, and the JSON shapes of the state.
