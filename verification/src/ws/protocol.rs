//! Violations of the WebSocket protocol.

use vstd::prelude::*;

verus! {

/// A violation of the WebSocket protocol.
#[derive(Debug)]
pub struct ProtocolError {
    /// What is wrong.
    pub description: String,
}

} // verus!
