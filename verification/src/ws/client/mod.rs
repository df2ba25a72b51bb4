//! The client side of WebSockets.

pub mod error;
