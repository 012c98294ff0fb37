//! A reliable transport protocol (connection setup, sliding windows, flow
//! control and teardown) carried over UDP datagrams.
//!
//! The verified library holds the packet format, the socket state machine of
//! the socket manager and the retransmission timer table.  Threads, channels
//! and sockets of the operating system live in the application around it.
pub mod transport;
