# primusdb

The decision logic of a multi-model database node, written in Verus and
proved against its contracts: policy governance and merging, a full-text
index, a property graph with breadth-first queries, vector clocks and
cross-cluster reconciliation, Raft and federated Raft decisions, shard
placement and routing, replication accounting, a block ledger, the
cryptographic envelopes around the outside crypto crates, and a GraphQL
subset (lexer, parser, operation selection, variable binding and the
per-field resolution step).

## Layout

- `src/` is the verified library. Each module states its data as plain
  mathematical values (`Seq`, `Map`, `Set`, views of its types) and proves
  every public function against a contract over them. Calls into outside
  crates (hashing, signatures, AEAD ciphers, password hashing, base64, hex,
  UUIDs, the system clock) go through small trusted wrappers whose contracts
  say what the crates' documentation promises; each wrapper's doc comment
  names the function it calls.
- `tests/` runs the library with the real outside crates linked.
- `app/` is the unverified shell: wire formats with serde, file and network
  I/O, the node's event loop, metrics, and anything that needs floating
  point. It hands the library plain values and acts on what comes back.
