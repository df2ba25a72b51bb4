//! HTTP/1 message decoding.

pub mod body_meaning;
pub mod chunked;
pub mod decoder;
pub mod fields;
pub mod head;
pub mod laws;
pub mod payload;
pub mod request_laws;
pub mod request_meaning;
