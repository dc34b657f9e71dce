# cnidarium

Pruning of versioned tree storage, and write access to chain state, verified
with Verus.

A versioned Merkle tree keeps the nodes of every version. Pruning collapses a
substore to a single version without changing what that version reads:

- a fresh tree is built in another database from the keys and values of that
  version, in chunks with range proofs against the root of the source;
- where a leaf commits to another value than the read path returns, the root
  keeps the former and reads keep the latter;
- every other column family is copied byte for byte, and compared by a SHA-256
  fingerprint afterwards.

`src/` is the verified library. It decides what is read, written and reported;
it takes rows and leaves as plain values and hands plain values back.

| module        | what it states                                                   |
|---------------|------------------------------------------------------------------|
| `config`      | which configurations are accepted                                |
| `codec`       | the bytes of values, nodes and node keys, and that they read back |
| `rows`        | column families as maps, their walks, and cutting into pieces    |
| `copy`        | which column families are carried over, and in which writes      |
| `fingerprint` | the framed bytes that are hashed, and that framing is injective  |
| `verify`      | which differences are reported, and that a copy has none         |
| `tree_store`  | the rows of a tree, and that what was written is read back       |
| `prune`       | chunks, overrides and the report; pruned stores read as before   |
| `write`       | what each write does to chain state                              |
| `error`       | what can go wrong, and how it is described                       |
| `text`        | numbers, bytes and lists as text                                 |

The laws of the library are the public proof functions of these modules.

`app/` reads and writes RocksDB databases by these rules. `tests/` runs the
library, among others on trees that a real tree implementation builds.
