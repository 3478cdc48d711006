# lightyear (verified core)

The verified core of a networking layer for server-authoritative multiplayer games,
written in Verus.

- `src/fragment.rs` — reassembly of fragmented messages. `FragmentConstructor` and
  `FragmentReceiver` are specified against an abstract model (`ConstructorView::step`,
  `receiver_step`): which fragments are dropped, when a message completes, and that the
  payload is the fragments concatenated in index order. The laws of reassembly (with and
  without repeated fragments) and of dropped metadata are proved there, and every
  receiver operation ensures `memory_bounded`: each pending buffer holds at most
  `FRAGMENT_SIZE` bytes per expected fragment, and at most `MAX_FRAGMENTS` fragments
  are expected.
- `src/packet.rs` — ticks, message ids, wire fragments and the size limits.
- `src/fork.rs` — the opt-in extension switches.
- `src/link.rs`, `src/prediction.rs` — the decisions of the server-link hooks and of the
  prediction-history observers, as functions of what those read from the world, and
  the updates of a server's collection of links.
- `src/metrics.rs` — replication send metrics and the sink trait applications implement.
- `src/delta.rs` — delta compression of the 2D physics components (floating point,
  delegated to the physics crate; only the inputs on which rotations are safe are
  stated).
- `src/platform.rs` — declarations of outside types and the trusted wrappers around
  outside calls.
- `app/` — the ECS resources (which need the ECS crate's component traits).
