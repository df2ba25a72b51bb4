//! The decoding half of an HTTP/1 server codec, and the errors of a WebSocket
//! client.

pub mod ascii;
pub mod error;
pub mod external;
pub mod h1;
pub mod request;
pub mod text;
pub mod ws;
