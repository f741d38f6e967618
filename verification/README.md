# agent_daemon

The verified core of `agentd`, an edge-side event dispatch daemon: it turns one
event of the relay for a locally registered agent into one invocation of a local
handler, and never retries, times out or kills anything.

- `src/` is the library. It decides, and every decision carries a contract that
  Verus proves: agent ids and the names derived from them, the registry and how
  it is written, loaded and compared, the store of completed events, the
  dispatcher with its slots and its queue, the consumers, the control plane, the
  startup. Laws over several functions stand as public proof functions at the
  end of each module, those of the dispatcher and of the registry in a `laws.rs`
  of their own. `src/dispatcher/histories.rs` holds those over any number of
  operations: the course of a delivery from its beginning to its end, copies of
  one event, the limit on an agent's handlers, and that every run ends.
- `app/` is the program around it: sockets, files, processes, the relay's
  protocol, and the log.
- `tests/` runs the library.

What is believed without proof is marked `external_body` or
`assume_specification`: calls into SQLite, the log filter's parser, the user's
directories, the clock, and the standard library's quoting of texts.
