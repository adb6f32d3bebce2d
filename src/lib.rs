//! A minimal peer-to-peer distributed hash table.
//!
//! Nodes store content-addressed blobs (an 8-byte hash mapped to a byte
//! payload), replicate them to the peers they know over an unreliable datagram
//! transport, and forget stale content and stale peers after a time to live.
//!
//! - [`messages`]: the wire protocol and its binary codec.
//! - [`table`]: a table keyed by value whose entries expire after a time to
//!   live; the content store and the peer table are built on it.
//! - [`state`]: the content store, the pending requests, the broadcast
//!   mailboxes and the message-processing engine built on them.
//! - [`server`]: the peer table and the decisions of one transport loop.
//! - [`cli`] and [`client`]: the commands a client sends and how it recognises
//!   the reply it waits for.
//! - [`transport`]: the receive buffer of a datagram socket.
//!
//! Time is given to the library as a number of milliseconds read from a
//! monotonic clock; sockets, timers and tasks belong to the caller.

pub mod messages;
pub mod table;
pub mod state;
pub mod server;
pub mod cli;
pub mod client;
pub mod transport;
