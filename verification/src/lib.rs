//! A Kademlia-style distributed hash table: the verified core of a node.
//!
//! The library holds the routing table, the local store, the wire messages with their checks,
//! the iterative lookups and the text console of a node. Whoever runs a node reads the sockets,
//! the clock and the terminal, hands the library plain values, and performs what it answers.

pub mod bytes;
pub mod client;
pub mod clock;
pub mod command;
pub mod console;
pub mod course;
pub mod data;
pub mod error;
pub mod hash;
pub mod keeping;
pub mod lookup;
pub mod order;
pub mod proto;
mod random;
pub mod routing;
pub mod screen;
pub mod sending;
pub mod server;
pub mod table;
pub mod text;
pub mod tokad;
pub mod tui;
pub mod wrap;
