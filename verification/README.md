# farminfo

The back end of a coffee-farm information service: a registry of farms,
their workers and the data records workers file, a geohash index of farm
locations, and the decoding of the geohash carried by farm-item
identifiers. The library under `src/` is verified with Verus; `app/` is the
Internet Computer canister that holds the state and serves it.

- `src/hashing.rs`: SHA-256 keys of names and ids (via `sha2`).
- `src/sorted_map.rs`: ordered maps kept as strictly increasing entry
  vectors, with their map model; the doc comment of `SortedMap` says why
  they stand where std's `BTreeMap` would.
- `src/farm_store.rs`: the registry, its invariants and its requests.
- `src/geo_index.rs`: the geohash index (geohash arithmetic via `geohash`).
- `src/id_tools.rs`: identifier layout, hex decoding (via `hex`), checksum.
- `src/laws.rs`: properties that span operations.
- `app/lib.rs`: canister endpoints, caller identity, floating-point distance
  filtering. Requests the service refuses are left out by the library's
  `requires`; the canister tests for them first and traps with the
  service's messages.
