//! The Status phase: a single response/pong exchange.

pub mod clientbound;
pub mod serverbound;
