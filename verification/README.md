# trana

The verified core of a distributed social and content backend: threads and comments with votes, media,
live streams, versioned documents, profiles, community governance without moderators, and a trust
layer.

Everything that is published is a record: an authored, content-addressed envelope with an optional
signature. Nodes gossip records and fold them into a read-model; the fold is idempotent and tolerates any
order of arrival, so that nodes that have seen the same records show the same, in the
same order. Where two records speak of one thing, their time and then their id decide.

- `src/` is the library. Every item of it is verified with Verus. `src/lib.rs` lists its modules by layer.
- `tests/` runs the library on concrete values, with the real cryptography and encoding crates.
- `app/` is the program around it: the mesh, the log on disk, the HTTP gateway, the command line, and the
  floating-point formulas for feed scores and fused trust.

What stands behind the contracts without proof: SHA-256, Ed25519 and hex from their crates (`crypto`), the
primitive encodings of `bincode` (`codec`), and `str::to_ascii_lowercase` (`feed`).
