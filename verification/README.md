# raft

A node of the Raft consensus protocol, written in Verus.

`src/` is the verified library:

- `types.rs`: identifiers, terms, log indices, and the role of a node.
- `log.rs`: the replicated log, with its well-formedness (entry `i` at
  position `i - 1`) kept by `append` and `truncate`.
- `messages.rs`: the protocol messages and their values.
- `node.rs`: the protocol's decisions. Each handler takes an event and the
  node's state to a new state and a list of actions (sends, broadcasts,
  client answers) that the runtime performs in order. The contract of each
  handler is a spec function over `RaftNodeView`.
- `node_laws.rs`: the invariant that every handled event keeps, and the
  monotone term.
- `quorum.rs`: the middle match index that a leader commits up to, and its
  uniqueness.
- `timer.rs`: election and heartbeat timers; durations are nanoseconds.
- `network.rs`: the retry policy of the transport.
- `state_machine.rs`, `text.rs`: the key-value state machine and the
  word splitting and number formatting it uses.

`app/` is the unverified runtime: the TCP transport with JSON framing, the
asynchronous event loop that performs the actions the library asks for,
and the sleeping waits of timers.
