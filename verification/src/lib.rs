//! A small HTTP/1.1 request/response engine: wire parsing of the request
//! line, headers and body, content negotiation for gzip compression, routing
//! to a fixed set of handlers, and byte-exact response serialization.
//!
//! The transport (a byte stream per connection), the filesystem and the
//! command line are the caller's: the engine takes the request head as text
//! and the body as bytes, and returns responses as the exact bytes to write.
pub mod headers;
pub mod request;
pub mod response;
pub mod server;
pub mod text;
