//! A minimal embeddable HTTP/1.1 server core.
//!
//! The crate contains the protocol engine of a small HTTP server: a
//! byte-level request parser, a method-and-path router with path-parameter
//! extraction, a response serializer, and the per-connection
//! parse-route-serialize cycle.  Transport setup (sockets, TLS handshakes,
//! task spawning) is left to the embedding application, which feeds the
//! engine plain bytes through the [`connection::AsyncConnection`] trait.

pub mod bytes;
pub mod connection;
pub mod laws;
pub mod message;
pub mod parser;
pub mod router;
pub mod serializer;

pub use connection::{bad_request_response, handle_connection, respond_bytes, AsyncConnection,
    BufferConnection};
pub use message::{Method, ParseError, Request, Response, Version};
pub use parser::parse_request;
pub use router::{error_response, not_found_response, HandlerError, RequestHandler, Route, Router,
    Segment};
pub use serializer::{parse_response, serialize_response};
