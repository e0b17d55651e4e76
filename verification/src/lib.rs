//! A distributed state-synchronisation engine.
//!
//! Each node keeps a map from keys to last-write-wins registers ([`state`]), pushes what its
//! peers have not seen yet to a few of them at a time ([`gossip`]), and answers JSON-RPC 2.0
//! requests on its state ([`rpc`]). The modules called `laws` state what holds of each part
//! as a whole: above all, that replicas which have received the same writes hold the same
//! state, in whatever order the writes arrived. The modules called `calls` state what a call of
//! each function comes to, what it asks for, and how two calls relate.

pub mod chance;
pub mod clock;
pub mod config;
pub mod encoding;
pub mod error;
pub mod gossip;
pub mod listing;
pub mod rpc;
pub mod state;
pub mod text;
