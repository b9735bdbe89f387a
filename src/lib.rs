//! Parsing and rendering of HTTP/1.1 messages, with a fixed registry of status codes.
pub mod headers;
pub mod laws;
pub mod message;
pub mod status;
pub mod text;

pub use headers::HeaderMap;
pub use message::{HttpMessage, HttpMethod, HttpRequest, HttpResponse, HttpVersion, ParseError};
pub use status::{HttpStatus, UnknownStatusCode};
