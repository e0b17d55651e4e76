//! The replicated state: registers, the store that holds them, and delta snapshots.

pub mod calls;
pub mod crdt;
pub mod laws;
pub mod snapshot;
pub mod store;

pub use crdt::LwwValue;
pub use store::{StateDelta, StateEvent, StateStore};
