//! Serverbound Handshake packets.

use vstd::prelude::*;
use crate::mc_types::{
    PacketError, spec_var_bytes, spec_u32_of_i32, spec_get_var_int, spec_get_prefixed_bytes,
    spec_utf8_lossy, spec_convert_string, spec_get_be, spec_be_bytes,
    get_var_int, convert_var_int, get_string, convert_string, get_u16, convert_u16,
    lemma_var_int_round_trip, lemma_string_round_trip, lemma_be_field_round_trip,
    lemma_pow256_values,
};

verus! {

/// The mathematical content of a Handshake packet.
pub struct HandshakeView {
    pub protocol_version: i32,
    pub server_address: Seq<char>,
    pub server_port: u16,
    pub next_state: i32,
}

/// Handshake (id 0): the client's protocol version, the address and port it
/// dialled, and the next phase (1 = Status, 2 = Login, 3 = Transfer).
pub struct Handshake {
    pub protocol_version: i32,
    pub server_address: String,
    pub server_port: u16,
    pub next_state: i32,
}

impl View for Handshake {
    type V = HandshakeView;

    open spec fn view(&self) -> HandshakeView {
        HandshakeView {
            protocol_version: self.protocol_version,
            server_address: self.server_address@,
            server_port: self.server_port,
            next_state: self.next_state,
        }
    }
}

impl Handshake {
    pub fn packet_id() -> (r: i32)
        ensures
            r == 0,
    {
        0
    }

    /// The encoding of the fields, in declared order.
    pub open spec fn spec_fields(v: HandshakeView) -> Seq<u8> {
        spec_var_bytes(spec_u32_of_i32(v.protocol_version) as nat) + spec_convert_string(
            v.server_address,
        ) + spec_be_bytes(v.server_port as nat, 2) + spec_var_bytes(
            spec_u32_of_i32(v.next_state) as nat,
        )
    }

    /// The parse of the fields from a buffer.
    pub open spec fn spec_get(data: Seq<u8>) -> Result<(HandshakeView, Seq<u8>), PacketError> {
        match spec_get_var_int(data) {
            Ok(q1) => match spec_get_prefixed_bytes(q1.1) {
                Ok(q2) => match spec_get_be(q2.1, 2) {
                    Ok(q3) => match spec_get_var_int(q3.1) {
                        Ok(q4) => Ok(
                            (
                                HandshakeView {
                                    protocol_version: q1.0,
                                    server_address: spec_utf8_lossy(q2.0),
                                    server_port: q3.0 as u16,
                                    next_state: q4.0,
                                },
                                q4.1,
                            ),
                        ),
                        Err(e) => Err(e),
                    },
                    Err(e) => Err(e),
                },
                Err(e) => Err(e),
            },
            Err(e) => Err(e),
        }
    }

    /// Consumes the fields in declared order.
    pub fn get(data: &mut Vec<u8>) -> (r: Result<Self, PacketError>)
        ensures
            match r {
                Ok(p) => Self::spec_get(old(data)@) == Ok::<(HandshakeView, Seq<u8>), PacketError>(
                    (p@, final(data)@),
                ),
                Err(e) => Self::spec_get(old(data)@) == Err::<
                    (HandshakeView, Seq<u8>),
                    PacketError,
                >(e),
            },
    {
        proof {
            reveal(crate::mc_types::spec_get_be);
        }
        let protocol_version = get_var_int(data)?;
        let server_address = get_string(data)?;
        let server_port = get_u16(data)?;
        let next_state = get_var_int(data)?;
        Ok(Handshake { protocol_version, server_address, server_port, next_state })
    }

    /// Emits the VarInt packet id, then the fields in declared order.
    pub fn convert(&self) -> (r: Vec<u8>)
        requires
            vstd::utf8::encode_utf8(self.server_address@).len() < 0x80000000,
        ensures
            r@ == spec_var_bytes(0) + Self::spec_fields(self@),
    {
        let mut data = convert_var_int(Self::packet_id());
        let mut part = convert_var_int(self.protocol_version);
        data.append(&mut part);
        let mut part = convert_string(self.server_address.as_str());
        data.append(&mut part);
        let mut part = convert_u16(self.server_port);
        data.append(&mut part);
        let mut part = convert_var_int(self.next_state);
        data.append(&mut part);
        data
    }
}

/// Handshake round trip: parsing an encoding of any field values, with any
/// bytes behind it, yields them back.
pub proof fn lemma_handshake_round_trip(v: HandshakeView, rest: Seq<u8>)
    requires
        vstd::utf8::encode_utf8(v.server_address).len() < 0x80000000,
    ensures
        Handshake::spec_get(Handshake::spec_fields(v) + rest) == Ok::<
            (HandshakeView, Seq<u8>),
            PacketError,
        >((v, rest)),
{
    let f1 = spec_var_bytes(spec_u32_of_i32(v.protocol_version) as nat);
    let f2 = spec_convert_string(v.server_address);
    let f3 = spec_be_bytes(v.server_port as nat, 2);
    let f4 = spec_var_bytes(spec_u32_of_i32(v.next_state) as nat);
    let whole = Handshake::spec_fields(v) + rest;
    assert(whole =~= f1 + (f2 + (f3 + (f4 + rest))));
    lemma_var_int_round_trip(v.protocol_version, f2 + (f3 + (f4 + rest)));
    lemma_string_round_trip(v.server_address, f3 + (f4 + rest));
    lemma_pow256_values();
    lemma_be_field_round_trip(v.server_port as nat, 2, f4 + rest);
    lemma_var_int_round_trip(v.next_state, rest);
}

/// The one serverbound Handshake packet, tagged by id.
pub enum HandshakeEnum {
    Handshake(Handshake),
}

impl HandshakeEnum {
    /// Reads a frame's payload: peels the VarInt id and decodes the matching
    /// packet; any other id fails with InvalidPacketId.
    pub fn read(data: &mut Vec<u8>) -> (r: Result<Self, PacketError>)
        ensures
            match r {
                Ok(p) => ({
                    &&& spec_get_var_int(old(data)@) matches Ok(q)
                    &&& q.0 == 0
                    &&& p matches HandshakeEnum::Handshake(h)
                    &&& Handshake::spec_get(q.1) == Ok::<(HandshakeView, Seq<u8>), PacketError>(
                        (h@, final(data)@),
                    )
                }),
                Err(e) => match spec_get_var_int(old(data)@) {
                    Ok(q) => if q.0 != 0 {
                        e == PacketError::InvalidPacketId
                    } else {
                        Handshake::spec_get(q.1) == Err::<(HandshakeView, Seq<u8>), PacketError>(e)
                    },
                    Err(e2) => e == e2,
                },
            },
    {
        let packet_id = get_var_int(data)?;
        if packet_id == 0 {
            Ok(HandshakeEnum::Handshake(Handshake::get(data)?))
        } else {
            Err(PacketError::InvalidPacketId)
        }
    }
}

/// The content of one serverbound Handshake-phase packet.
pub enum HandshakeEnumView {
    Handshake(HandshakeView),
}

/// The frame payload that encodes one packet of this phase and direction:
/// its VarInt id, then its fields.
pub open spec fn spec_encode_handshake(v: HandshakeEnumView) -> Seq<u8> {
    match v {
        HandshakeEnumView::Handshake(h) => spec_var_bytes(0) + Handshake::spec_fields(h),
    }
}

/// Phase dispatch: the encoded bytes of any packet of this phase and
/// direction carry its own id, and its fields parse back to the packet;
/// `read`'s contract then yields exactly the matching variant, and any
/// foreign id fails with InvalidPacketId.
pub proof fn lemma_handshake_dispatch(v: HandshakeEnumView)
    requires
        match v {
            HandshakeEnumView::Handshake(h) => vstd::utf8::encode_utf8(h.server_address).len()
                < 0x80000000,
        },
    ensures
        match v {
            HandshakeEnumView::Handshake(h) => {
                &&& spec_get_var_int(spec_encode_handshake(v)) == Ok::<
                    (i32, Seq<u8>),
                    PacketError,
                >((0i32, Handshake::spec_fields(h)))
                &&& Handshake::spec_get(Handshake::spec_fields(h)) == Ok::<
                    (HandshakeView, Seq<u8>),
                    PacketError,
                >((h, Seq::<u8>::empty()))
            },
        },
{
    match v {
        HandshakeEnumView::Handshake(h) => {
            let fields = Handshake::spec_fields(h);
            lemma_var_int_round_trip(0i32, fields);
            lemma_handshake_round_trip(h, Seq::<u8>::empty());
            assert(fields + Seq::<u8>::empty() =~= fields);
        },
    }
}

} // verus!
