//! Failures of the connection itself.

use actix_net::connector::ConnectorError;
use vstd::prelude::*;

verus! {

/// `std::io::Error`, opaque.
#[verifier::external_type_specification]
#[verifier::external_body]
pub struct ExIoError(std::io::Error);

/// `actix_net::connector::ConnectorError`, opaque.
#[verifier::external_type_specification]
#[verifier::external_body]
pub struct ExConnectorError(ConnectorError);

/// The `Display` text of a `std::io::Error`. For a failed system call this is
/// the message of the operating system, so nothing is claimed of it.
#[verifier::external_body]
pub(crate) fn io_text(err: &std::io::Error) -> String {
    format!("{}", err)
}

/// The `Debug` text of a `ConnectorError`. It can hold the text of an I/O error,
/// so nothing is claimed of it.
#[verifier::external_body]
pub(crate) fn connector_text(err: &ConnectorError) -> String {
    format!("{:?}", err)
}

} // verus!
