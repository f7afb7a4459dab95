//! The core of a small WebSocket endpoint: the frame codec, the opening
//! handshake, the request router and the connection state machine. Nothing
//! here performs I/O; a driver reads and writes the stream and feeds the
//! state machine with what happened.

pub mod endian;
pub mod frame;
pub mod handshake;
pub mod request;
pub mod connection;
