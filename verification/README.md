# pea2pea

A simple, low-level and customizable TCP P2P node, written in Rust and verified with Verus.

- `src/` is the verified library: connection bookkeeping and its limits
  (`connections`), the links that make a group of nodes form a topology (`topology`),
  statistics about traffic and peers (`stats`, `node_stats`, `peer_stats`, `known_peers`),
  the byte accounting of the reading and writing protocols (`protocols`), and the plain
  address and map types they rest on (`addr`, `addr_map`). Each public function states its
  behaviour in `requires` / `ensures`; the `law_*` proof functions state what holds across
  calls.
- `app/` is the node itself: the tokio tasks, sockets, codecs and tracing spans that drive the
  library.
- `tests/` runs the library on concrete values.
