# runtime

The decision logic of an agent runtime, written in Verus. The functions in
`src/` carry contracts that the verifier proves, except for a handful of
trusted wrappers (marked `#[verifier::external_body]`) around `serde_json`,
`chrono`, `uuid` and `String::from_iter`, whose contracts state what those
libraries document and are believed without proof.

## Layout

- `src/text.rs`, `src/chars.rs`: character sequences, trimming, searching,
  decimal text, UTF-8 lengths.
- `src/json.rs`: a JSON value type of the library and its plain model
  (`JsonData`); parsing and printing go through `serde_json` behind a few
  trusted wrappers whose contracts name their results.
- `src/context/`: what the model sees of a session — character and token
  budgets, text truncation, media, tool results, workspace and process
  snapshots, compaction and the session timeline. `context_management.rs`
  replays a session log into the model context (the last checkpoint
  restarts it, each tool result brings the context messages stored with
  it) and logs tool results and dialog messages.
- `src/prompt_style/`: the prompt texts, the runtime prompt manuals (task
  types, their fathers, and the manual records appended to the session
  log).
- `src/gateway_events.rs`, `src/checkpoint.rs`: records published to the
  gateway and the checkpoint events of a turn.
- `src/agent_router.rs`: agent names, aliases, router specs and the shape of
  a coding agent.
- `src/manas/`: the turn — tools offered and executable, argument
  normalisation, the permission gate, tool results, the sandbox bypass, the
  task plan (settling, replacing and numbering tasks), and
  the turn loop's decisions (`process.rs`: retry, run tools, ask again,
  end).
- `src/mano.rs`: orchestration settings, the planning capability switch and
  the states a session goes through.
- `tests/`: tests of the library on concrete values.
- `app/`: the parts that are input and output — environment settings, the
  file system, the process table — and the serde forms of the library's
  records. The verifier does not read it.

Laws that span several functions stand in `src/` as public proof functions
whose names begin with `law_`.
