//! What the library promises as a whole, stated over what its operations take and give.
//!
//! Each law says in its own terms what an operation is for: which bytes stand where, which
//! packets leave, how far an estimate moves.

pub mod accounting;
pub mod acks;
pub mod congestion;
pub mod connections;
pub mod control;
pub mod detection;
pub mod keys;
pub mod packets;
pub mod probing;
pub mod recovery;
pub mod sending;
pub mod streams;
pub mod timers;
pub mod values;
pub mod wire;
