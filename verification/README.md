# task_storage

An in-memory storage of tasks that is persisted by snapshots while it is in use, written in Rust
and verified with Verus.

- `src/` is the library. Every function states what it does to the contents of the storage, which
  `model.rs` defines. `laws.rs`, `runs.rs` and `quiet.rs` prove what follows: a snapshot persists
  the storage as it was when the snapshot was started, and no modification that is kept track of is
  lost, as long as each snapshot is started only after all tasks that the one before it was to
  persist were encoded, and no count of modified tasks gets full. A snapshot that is given up after
  its scan leaves tasks that are modified but not counted, which the next one may skip.
- `tests/` runs the library on concrete values.
- `app/` shares a storage between threads, behind a lock.

The library keeps its tasks in `dashmap` maps, its lists in `smallvec`, and its scratch buffers in
`thread_local`. What it relies on them for is stated in `maps.rs`, `id_list.rs` and `scratch.rs`.
