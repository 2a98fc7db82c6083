//! A connection-oriented stream socket over a VSOCK-style packet transport.
//!
//! The socket engine handles the handshake (active connect and passive accept), credit-based
//! flow control over free-running 32-bit counters, fragmentation of writes into packets,
//! reassembly of reads across packet boundaries, and orderly or abrupt teardown.
pub mod packet;
pub mod transport;
pub mod socket;
pub mod laws;
