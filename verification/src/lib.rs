//! Core of a Bitcoin node backend: the wire protocol that frames control
//! messages on a byte stream, and the feed channel that tracks how far each
//! ingestion job has come.
//!
//! Everything here works on plain values. Sockets, clocks and locks belong to
//! the program around this library, which hands over the bytes it has read and
//! the time it has measured.

pub mod channel;
pub mod error;
pub mod frame;
pub mod job;
pub mod payload;
pub mod request;
pub mod response;
pub mod service;
pub mod status;
pub mod wire;
