# flow_node

Content addressing, chunking and distributed-search support for a Flow node, written in Verus:
the executable code carries `requires`/`ensures` contracts that Verus proves.

## Layout

- `src/` — the verified library.
  - `content_id`, `block`, `dag_cbor`, `cbor_read`: identifiers, blocks, and canonical
    DAG-CBOR writing and reading.
  - `manifest`, `manifest_read`, `metadata`, `tree_walk`: document manifests, their Merkle
    trees of chunk links, encoding and decoding them, and walking a tree back to its chunks.
  - `chunking`: fixed-size, FastCDC and Rabin chunkers, and the tiling laws they keep.
  - `dag`, `store`, `records`, `provider`, `service`, `content_api`: the rules of building,
    storing, fetching and reading content, apart from the I/O itself.
  - `search`, `query`: query messages and their validation, search plans, result grouping,
    live collection of peer answers, cache counters, and the query pipeline's errors.
- `tests/` — tests of the library on concrete values.
- `app/` — the unverified edges: environment and file I/O, serde forms, authentication
  tokens and floating-point scoring, and drivers that perform the I/O whose decisions the
  library makes: reading a DAG through a content provider, fetching a block from network
  providers, and storing a block in a key-value database. Each driver is written against a
  small trait, so the node supplies the runtime, the peer-to-peer network and the database.
  The node's other services (vector-database search, the peer-to-peer search protocol,
  announcements and indexing) are not part of this crate; the library gives their
  decisions as functions from state and event to the next step (`search_plan`,
  `merge_outcomes`, `LiveCollection`, `planned_announcements`, `decide_index`), which the
  node's drivers call.

Run Verus on `src/lib.rs` to check the proofs; `cargo test` runs the tests.
