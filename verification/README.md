# State-Sync Engine

A distributed key-value engine whose core is verified with Verus. Each node keeps
last-write-wins registers, gossips what its peers have not seen yet, and answers JSON-RPC 2.0
requests on its state.

- `src/state/` — the register and its merge, the store and its event channel, deltas as bytes,
  and the laws of the replicated state: merging never regresses, and replicas that received
  the same writes agree, whatever the order of arrival.
- `src/gossip/` — what is known of peers, the wire format, the rules of an exchange, and the
  laws of gossip: an acknowledged push leaves the peer up to date, and a two-way exchange ends
  in the same state on both sides. `cluster.rs` models a running cluster step by step, over a
  network that may lose messages; `convergence.rs` says what it ends up with, and how soon.
- `src/rpc/` — JSON values, requests and answers, method dispatch, the state machine of a
  client connection, and the laws of the RPC layer.
- `src/encoding.rs` — the bytes of what nodes send each other, and that they can be read in one
  way only.
- `src/clock.rs`, `src/config.rs`, `src/error.rs`, `src/listing.rs`, `src/text.rs` — shared
  ground.
- `tests/` — what the library does on concrete values.
- `app/` — the node itself: command line, TCP, JSON text, and the lock around the shared
  state.

What the library takes on trust from other crates stands behind functions whose comments say
so: the clocks of the standard library, tokio's broadcast channel, dashmap's map, bincode's
encoding, uuid's and rand's randomness.
