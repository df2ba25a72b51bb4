//! What the library takes on trust from the crates it is built on.
//!
//! The items here give contracts to functions of the `bytes`, `http`,
//! `httparse` and `actix-net` crates, and of std. Nothing proves them; each one
//! says what it claims.

pub mod buffer;
pub mod connection;
pub mod head;
pub mod message;
