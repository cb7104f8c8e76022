# paimon_route

Verified core of a Paimon table connector, written in Verus.

- `src/` is the verified library: route keys and write routing for
  fixed-bucket primary-key tables (`route_key`, `router`), the lane-ownership
  registry (`lanes`), the commit coordinator (`commit`), per-partition
  metadata aggregation (`partitions`), scan planning and table naming
  (`table`), metadata system tables (`system`) and the write-prepare plan node
  (`write_prepare`). The Paimon and Arrow items it calls are declared with
  their contracts in `paimon_api`.
- `app/` is the unverified asynchronous side: loading tables through a
  catalog, planning scans, committing snapshots, the descriptor's JSON form,
  the process-wide lane registry and error messages.
- `tests/` runs the library against the real Paimon crate.
