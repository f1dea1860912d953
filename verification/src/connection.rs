//! The client side of a connection: its state and every decision on it, apart from the sockets,
//! channels and timers that carry the decisions out.
pub mod events;
pub mod handshake;
pub mod lifecycle;
pub mod message;
pub mod outbound;
pub mod reader;
pub mod sequence;
pub mod session;
pub mod steps;
pub mod timeouts;
pub mod timing;
pub mod udh;
pub mod writer;
