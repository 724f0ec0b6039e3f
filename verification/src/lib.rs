//! Coordination core of a relay hub that polls price-reporting agents.

pub mod channel;
pub mod client;
pub mod errors;
pub mod identity;
pub mod lookup;
pub mod messages;
pub mod models;
pub mod peers;
pub mod registry;
pub mod server;
pub mod session;
pub mod table;
pub mod wire;
pub mod wire_laws;
