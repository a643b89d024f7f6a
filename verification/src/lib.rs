//! Move generation for a game of Go played on one board or on two at once,
//! on top of an analysis engine that speaks a line-based text protocol.
//!
//! The library holds the rules and none of the plumbing: it writes the
//! command lines, frames and reads the replies, ranks and chooses candidate
//! moves, and steps the two move services from event to action. Starting the
//! engine and moving bytes is left to the caller. Every function is verified
//! against the contract in its header.

pub mod account;
pub mod analysis;
pub mod codec;
pub mod dual;
pub mod estimate;
pub mod framing;
pub mod info;
pub mod lobby;
pub mod number;
pub mod pool;
pub mod service;
pub mod session;
pub mod single;
pub mod text;
