# zaino

Verified core logic of the Zaino Zcash indexer, written in Verus.

- `src/` is the library. Its functions carry contracts that Verus proves, except two trusted
  wrappers whose contracts Verus takes as given: `checksum::blake2b256_digest` (BLAKE2b-256
  from the `blake2` crate, the checksum of stored entries) and
  `network_upgrade::upgrade_map_last` (`IndexMap::last` from `indexmap`).
  - `metadata`: versioned encodings of mempool info and of the finalised txout-set accumulator.
  - `txout_set`: how writing or deleting a block moves the accumulator counts. Deleting a
    block undoes writing it whenever the starting transaction count covers the earlier
    transactions the block removes from the set.
  - `commitment`, `txout_set_info`: the multiset commitment (hash, total value, size) across a
    block, and the full information (counts and commitment) across a block; deleting a block
    restores both under the same condition.
  - `addr_history`, `history_map`: transparent address history records and their queries.
  - `tx_list`, `stored_entry`: stored transaction lists and fixed-size stored entries.
  - `proto_utils`: pool types and block-range request validation of the gRPC surface.
  - `network_upgrade`, `cli`: the latest network upgrade, the daemon's command line, the
    default configuration path and the restart decision.
- `app/` is the plain Rust around it: clap parsing, the environment and file output.
- `tests/` runs the library on concrete values.
