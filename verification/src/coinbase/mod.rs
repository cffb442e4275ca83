//! The full channel of the Coinbase websocket feed, and its reassembly from
//! several connections.
pub mod high_availability;
pub mod serde;
pub mod websocket;
pub mod whole;
