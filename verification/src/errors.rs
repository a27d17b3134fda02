//! Error types of the client.
//!
//! `DeboaError` is what every fallible operation returns; the nested enums
//! say which stage failed. Each variant carries a human-readable message.
use vstd::prelude::*;

verus! {

/// The main error type of the client.
#[derive(Debug, Clone, PartialEq)]
pub enum DeboaError {
    /// Invalid cookie header.
    Cookie { message: String },
    /// Invalid client certificate.
    ClientCert { message: String },
    /// Invalid certificate.
    Certificate { message: String },
    /// Invalid identity.
    Identity { message: String },
    /// Invalid header.
    Header { message: String },
    /// Connection error.
    Connection(ConnectionError),
    /// Request error.
    Request(RequestError),
    /// Response error.
    Response(ResponseError),
    /// Content error.
    Content(ContentError),
    /// I/O error.
    Io(IoError),
}

/// Errors while building or sending a request.
#[derive(Debug, Clone, PartialEq)]
pub enum RequestError {
    /// Failed to parse a request.
    Parse { message: String },
    /// Failed to send a request.
    Send { message: String },
    /// Failed to prepare a request.
    Prepare { message: String },
    /// Failed to parse a url.
    UrlParse { message: String },
    /// Failed to parse a method.
    MethodParse { message: String },
}

/// Errors while receiving or processing a response.
#[derive(Debug, Clone, PartialEq)]
pub enum ResponseError {
    /// A response with an error status; `status_code` is the numeric code.
    Receive { status_code: u16, message: String },
    /// Failed to process a response.
    Process { message: String },
}

/// Errors while connecting.
#[derive(Debug, Clone, PartialEq)]
pub enum ConnectionError {
    /// TCP connection error.
    Tcp { host: String, message: String },
    /// TLS connection error.
    Tls { host: String, message: String },
    /// UDP connection error.
    Udp { host: String, message: String },
    /// Handshake error.
    Handshake { host: String, message: String },
    /// Upgrade error.
    Upgrade { message: String },
    /// Unsupported scheme.
    UnsupportedScheme { message: String },
}

/// Errors while serializing or deserializing bodies.
#[derive(Debug, Clone, PartialEq)]
pub enum ContentError {
    /// Failed to serialize data.
    Serialization { message: String },
    /// Failed to deserialize data.
    Deserialization { message: String },
}

/// I/O errors.
#[derive(Debug, Clone, PartialEq)]
pub enum IoError {
    /// Failed to write a file.
    File { message: String },
    /// Failed to compress data.
    Compress { message: String },
    /// Failed to decompress data.
    Decompress { message: String },
    /// Failed to write to stdout.
    Stdout { message: String },
    /// Failed to write to stderr.
    Stderr { message: String },
    /// Failed to read from stdin.
    Stdin { message: String },
}

/// Result of the client's operations.
pub type Result<T> = std::result::Result<T, DeboaError>;

} // verus!
