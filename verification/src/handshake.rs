//! The Handshake phase: a single serverbound packet that selects the next
//! protocol phase.

pub mod serverbound;
