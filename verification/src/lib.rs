//! A WebSocket relay engine: frame codec, upgrade handshake, client registry
//! and message routing, with every rule stated as a contract.

pub mod frame;
pub mod handshake;
pub mod pool;
pub mod reader;
pub mod registry;
pub mod routing;
pub mod text;
