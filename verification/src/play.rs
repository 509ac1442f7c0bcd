//! The Play phase: a single opaque passthrough packet.  The library does not
//! decode Play packets; it preserves a frame's bytes and re-emits them
//! unchanged, which is what a proxy needs.

use vstd::prelude::*;
use crate::mc_types::PacketError;

verus! {

/// The raw bytes of one Play-phase frame.
pub struct PlayPacket {
    pub data: Vec<u8>,
}

impl View for PlayPacket {
    type V = Seq<u8>;

    open spec fn view(&self) -> Seq<u8> {
        self.data@
    }
}

impl PlayPacket {
    pub fn packet_id() -> (r: i32)
        ensures
            r == 0,
    {
        0
    }

    /// Takes every remaining byte of the frame as the packet's payload.
    pub fn get(data: &mut Vec<u8>) -> (r: Result<Self, PacketError>)
        ensures
            r matches Ok(p) && p@ == old(data)@ && final(data)@.len() == 0,
    {
        let mut taken: Vec<u8> = Vec::new();
        core::mem::swap(data, &mut taken);
        Ok(PlayPacket { data: taken })
    }

    /// Re-emits the payload unchanged, as one frame's bytes.
    pub fn convert(&self) -> (r: Vec<u8>)
        ensures
            r@ == self@,
    {
        crate::encrypt::copy_bytes(&self.data)
    }
}

/// The Play-phase packets: one opaque variant.
pub enum Play {
    PlayPacket(PlayPacket),
}

impl Play {
    /// Wraps a frame's payload whole.
    pub fn read(data: &mut Vec<u8>) -> (r: Result<Self, PacketError>)
        ensures
            r matches Ok(p) && p matches Play::PlayPacket(q) && q@ == old(data)@
                && final(data)@.len() == 0,
    {
        Ok(Play::PlayPacket(PlayPacket::get(data)?))
    }
}

} // verus!
