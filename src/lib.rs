//! A small HTTP/1.1 server's request/response engine, verified.
//!
//! - `bytes`: byte-string helpers (whitespace, ASCII case, search, decimals).
//! - `request`: the request parser, over the bytes a connection received.
//! - `response`: responses and their wire form, gzip included.
//! - `router`: the route table and the handlers.
//! - `connection`: one connection's decisions, from bytes in to bytes out.
//! - `html`: an HTML listing of a directory tree.
//! - `laws`: properties of the whole, proved from the contracts above.
pub mod bytes;
pub mod connection;
pub mod html;
pub mod laws;
pub mod request;
pub mod response;
pub mod router;
