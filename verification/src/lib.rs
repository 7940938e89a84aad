//! Collections that live in a metered key-value store, and the guards
//! that contracts put in front of their methods.
//!
//! Every read and write of the underlying store is expensive. The
//! containers here therefore keep a write-back cache in memory, read a
//! slot from the store only when it is first touched, and write the
//! pending changes back on `flush`, one operation for each changed slot.
//!
//! The store is handed to every operation that needs it; a container
//! holds no reference to it. What a container means is always stated
//! over the contents of a store: `Vector::elements` gives the sequence
//! that a vector holds over given contents, and `Vector::wf` says when a
//! vector and a store fit together. Every operation keeps the two
//! fitting; `flush` additionally brings the store up to date.
//!
//! Nothing here reaches for the host. What a call knows of its
//! surroundings comes in as a `Context`, and what it writes goes out
//! through the journal of the `Store`.

pub mod account;
pub mod codec;
pub mod context;
pub mod entry;
pub mod iter;
pub mod key;
pub mod ownable;
pub mod stable_map;
pub mod store;
pub mod utils;
pub mod vector;
