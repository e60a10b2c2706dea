# Kadcast

A structured peer-to-peer broadcast overlay: Kademlia routing tables, a
binary wire format, RaptorQ forward error correction of broadcast frames,
and the decisions of the peer that answers incoming messages and maintains
its routing table. The library is written in Verus and its behaviour is
stated in `requires` / `ensures` contracts proved by the verifier.

## Layout

- `src/kbucket`: identifiers and their proof of work, the XOR distance,
  LRU buckets with pending eviction, the routing tree.
- `src/encoding`: the wire format of every message, with the laws that
  reading gives back what writing wrote (`roundtrip.rs`).
- `src/transport`: chunking broadcast frames with RaptorQ and joining them
  back through a cache that delivers each broadcast once.
- `src/handling.rs`, `src/maintainer.rs`: what a peer sends, delivers and
  changes in its routing table for each incoming message, and the periodic
  maintenance of the table.
- `src/hashing.rs`, `src/random.rs`, `src/sorting.rs`, `src/versioning.rs`,
  `src/clock.rs`: the calls into `blake2`, `rand`, `itertools`, `semver`
  and the wall clock, each with the contract the rest relies on.
- `app/`: the tokio runtime around the library: UDP sockets, channels,
  tasks, DNS resolution and the serde form of the configuration.
- `tests/`: tests of the library on concrete values.
