//! The Login phase: the cryptographic handshake packets in both directions.
//! The phase ends with Disconnect (failure) or LoginAcknowledged (success).

pub mod clientbound;
pub mod serverbound;
