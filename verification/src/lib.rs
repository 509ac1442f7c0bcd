//! Wire layer for the Minecraft Java Edition protocol (protocol 767, game
//! version 1.21): primitive codec, length-prefixed framing, the CFB8 stream
//! cipher and RSA login handshake, and the packet catalogue of the four
//! protocol phases.

pub mod mc_types;
pub mod encrypt;
pub mod handshake;
pub mod status;
pub mod play;
pub mod login;
pub mod connection;
