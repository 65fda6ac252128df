//! Fetch bridge: HTTP responses carried to a watch over a message link.
pub mod codec;
pub mod fetch;
pub mod handshake;
pub mod interconnect;
pub mod state;
pub mod stream;
pub mod table;
pub mod transfer;
pub mod ui;
