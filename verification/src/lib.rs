//! Verified core of an input-driving bot split across two machines: the wire
//! messages exchanged between the "brain" and the "agent", the key-name parser,
//! the agent's held-input state machine, line framing, and the brain's demo
//! script.

pub mod protocol;
pub mod keys;
pub mod input;
pub mod link;
pub mod demo;
