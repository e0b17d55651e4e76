//! The gossip layer: what is known of peers, the wire format, and the exchange rules.

pub mod calls;
pub mod cluster;
pub mod convergence;
pub mod laws;
pub mod manager;
pub mod peer;
pub mod protocol;
pub mod table;

pub use manager::GossipManager;
pub use peer::PeerInfo;
pub use protocol::{GossipAck, GossipMessage};
pub use table::PeerTable;
