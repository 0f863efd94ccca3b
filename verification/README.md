# xchannel_net

The node manager of a network of append-only channels.

A channel is a log with one writer. Each host runs one daemon, which owns the channels created on
it, tells its peers about them, serves them to subscribers, and keeps replicas of the channels that
its local clients read. Daemons find each other by gossip from a few seeds; the directory of
channels converges without a leader. A topic is a channel into which its owner merges the records of
many member channels.

What a daemon decides is in `src/`, and every item there is verified with
[Verus](https://github.com/verus-lang/verus): who owns a name, which of two claims wins, what is told
to whom, who counts as alive, when to dial and when to wait, which members feed a topic, when a
member or a name may be retired, and what a client is answered. The library does no input or output
and reads no clock: readings come in as arguments, and what is to be done goes out as values.

- `src/registry.rs`, `src/identity.rs`: the channel directory and the order on claims.
- `src/membership.rs`, `src/broadcast.rs`: liveness, hearsay, and messages between peers.
- `src/node.rs`, `src/node/`: the daemon's state and each of its operations. `src/node/laws.rs` states
  what holds across them, and `src/node/passes.rs` what holds over several passes in a row.
- `src/subscription.rs`, `src/backoff.rs`, `src/mux_idle.rs`: replicas, retries, and waiting.
- `src/node_identity.rs`, `src/startup.rs`, `src/shutdown.rs`: identity and the ends of a run.
- `app/`: the daemon itself, which holds the sockets, files, threads and clocks.
- `tests/`: runs of the library, alone and as a mesh in memory.

Times called `now` are readings of a monotonic clock in nanoseconds; those called `wall` count from
the Unix epoch.
