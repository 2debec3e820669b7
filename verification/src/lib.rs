//! Verified core of a service that watches TON addresses for WebSocket clients.
pub mod reports;
pub mod settings;
pub mod subscription;
pub mod ton;
pub mod utils;
pub mod websocket;
