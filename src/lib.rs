//! A small HTTP/1.1 request decoder: the request line, the header block,
//! and the per-connection state machine that drives them over a byte stream.

pub mod bytes;
pub mod connection;
pub mod decoder;
pub mod error;
pub mod headers;
pub mod line;
pub mod method;
pub mod request_line;
pub mod target;

pub use connection::{Action, ConnState, Connection};
pub use decoder::{decode_request, Decoded, Limits, Request};
pub use error::ParserError;
pub use headers::HeaderMap;
pub use method::Method;
