//! The asynchronous client core of a RESP client, as verified state
//! machines: the driver that pairs replies with pipelined requests, the
//! handshake of a new connection, and the decisions of a connection manager
//! that replaces a lost connection once per observed loss.
pub mod connection;
pub mod manager;
pub mod pipeline;
pub mod types;
