use vstd::prelude::*;

verus! {

/// `std::io::Error`, carried through unchanged.
#[verifier::external_type_specification]
#[verifier::external_body]
pub struct ExIoError(std::io::Error);

/// Why a connection or a request failed.
#[derive(Debug)]
pub enum ServerError {
    /// A socket-level failure.
    IOError(std::io::Error),
    /// Data that could not be decoded.
    ParseError(String),
    /// Malformed or oversized wire data.
    ProtocolError(String),
    /// An unexpected internal condition.
    InternalError(String),
    /// A server configuration that cannot be used.
    ConfigError(String),
    /// No progress within the configured window.
    TimeoutError(String),
}

impl From<std::io::Error> for ServerError {
    fn from(value: std::io::Error) -> (r: ServerError) {
        ServerError::IOError(value)
    }
}

impl vstd::std_specs::convert::FromSpecImpl<std::io::Error> for ServerError {
    open spec fn obeys_from_spec() -> bool {
        true
    }

    open spec fn from_spec(v: std::io::Error) -> ServerError {
        ServerError::IOError(v)
    }
}

} // verus!
