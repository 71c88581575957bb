# hotstuff_consensus

The decision logic of a HotStuff consensus engine and of a Tendermint-style
finality gadget for Substrate-style chains, written in Verus and proved
against its contracts.

## Layout

- `src/` — the verified library.
  - `primitives`, `topics`: hashes, signatures, SCALE encodings and gossip
    topic names (blake2 and ed25519 come from `sp-core`, encodings from
    `parity-scale-codec`).
  - `hotstuff_message`, `aggregator`, `consensus`, `worker`, `params`: the
    HotStuff messages and their checks, vote and timeout aggregation, the
    replica state and the worker that turns each event into the actions to
    take.
  - `voter_set`, `persistent`, `tendermint_messages`, `commit_checks`: voter
    sets with their supermajority threshold, round messages and commits,
    checks of commits and finality justifications.
  - `authority_changes`, `authority_set`, `warp_sync`: pending authority set
    changes (a `fork-tree` of standard changes and a list of forced ones),
    the history of set changes, and warp sync proofs.
  - `gossip`: the gossip validator's state (peers, gossip stages, kept
    topics) and its validation rules.
  - `dummy_chain`, `routing`: a test chain and the routing rules of a test
    network.
- `tests/`: tests of the library, run against the real outside crates.
- `app/`: the runtime around the library: locks, clocks, the worker loop,
  the network bridge and the warp sync provider. It hands the library plain
  values and carries out what it decides.
