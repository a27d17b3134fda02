//! A small HTTP client library: requests, headers, cookies, forms and
//! responses, with the parts that decide what goes on the wire stated and
//! proved.
pub mod cache;
pub mod cert;
pub mod client;
pub mod conn;
pub mod cookie;
pub mod encoding;
pub mod errors;
pub mod form;
pub mod header;
pub mod method;
pub mod pool;
pub mod request;
pub mod request_text;
pub mod response;
pub mod text;
pub mod tls;
pub mod url;

pub use crate::errors::Result;
