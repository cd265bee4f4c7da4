//! A server behind HTTP and behind WebSocket.
//!
//! Nothing here does I/O or runs a handler: each step says what is to be done next.

pub mod http;
pub mod websocket;
