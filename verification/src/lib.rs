//! An in-memory storage of tasks that can be persisted by snapshots while it is in use.
//!
//! Each task carries flags that say what of it differs from what is persisted. A snapshot persists
//! the tasks that are modified when it starts, in the state that they are in then: a task that is
//! modified while the snapshot is being written is copied first. What is modified meanwhile is left
//! to the next snapshot.
//!
//! Every operation borrows the storage exclusively while it runs, and nothing is borrowed between
//! two of them: tasks can be modified at any point of writing a snapshot.
//!
//! - `storage` holds the storage itself, and the access to single tasks.
//! - `snapshot` encodes what a snapshot is to persist; `scratch` lends out the buffers for that.
//! - `task` and `category` hold what a task consists of.
//! - `model` says what each operation does, and `effects` what that comes to for every field of every
//!   task; `laws` says what the operations keep, `runs` what holds after any number of them in any
//!   order, and `quiet` what holds of a whole snapshot during which no task is modified.
//! - `maps` and `id_list` are about the collections of other crates on which all this rests.
pub mod category;
pub mod effects;
pub mod id_list;
pub mod laws;
pub mod maps;
pub mod model;
pub mod quiet;
pub mod runs;
pub mod scratch;
pub mod snapshot;
pub mod storage;
pub mod task;
