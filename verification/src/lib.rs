//! An embeddable HTTP/1.x server engine: a byte-oriented request parser and
//! response writer, a path-pattern router, and the WebSocket handshake and
//! frame-dispatch protocol, together with the decision logic that drives one
//! connection from parse to response or upgrade.
//!
//! The crate is a library of pure protocol logic: sockets, threads and every
//! other kind of input/output stay with the host program, which feeds byte
//! buffers in and carries byte buffers out.

pub mod ascii;
pub mod codes;
pub mod entity;
pub mod http1;
pub mod router;
pub mod digest;
pub mod websocket;
pub mod server;
pub mod context;
pub mod cors;
pub mod utils;
