//! Resumable relay of a large file from an HTTP origin to one TCP client.
//!
//! The library holds the wire encodings, the handshake, the receiver's
//! streaming-with-checkpoint state machine and the redirector's per-client
//! decisions. The I/O around them lives in the application.

pub mod codec;
pub mod handshake;
pub mod receiver;
pub mod disk;
pub mod progress;
pub mod redirector;
