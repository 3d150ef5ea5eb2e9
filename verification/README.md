# daos-rs

A stand-in for the DAOS client array API, verified with Verus.

- `src/types.rs`: identifiers, handles, extents and I/O descriptors as plain values.
- `src/array.rs`: the byte-level semantics of array reads, writes and resizes.
- `src/names.rs`: reading object names as numbers; the largest such name.
- `src/storage.rs`: the object store (bytes by object key, next identifier).
- `src/mock_daos.rs`: the DAOS calls, answered from the object store.
- `src/laws.rs`: properties that span several calls.
- `app/`: the process-wide store kept in files under the temporary directory.
