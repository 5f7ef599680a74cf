//! A small HTTP/1.1 server library: request parsing, routing and response
//! building over raw bytes, with the socket and file work left to the caller.

pub mod bytes;
pub mod request;
pub mod response;
pub mod router;
pub mod laws;
