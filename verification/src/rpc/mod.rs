//! The JSON-RPC 2.0 layer.

pub mod answers;
pub mod calls;
pub mod error_codes;
pub mod handler;
pub mod json;
pub mod laws;
pub mod number;
pub mod server;
pub mod types;

pub use json::Json;
