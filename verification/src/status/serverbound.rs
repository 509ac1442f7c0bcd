//! Serverbound Status packets.

use vstd::prelude::*;
use crate::mc_types::{
    PacketError, spec_var_bytes, spec_get_var_int, spec_get_be, spec_be_bytes, spec_i64_of_u64,
    spec_u64_of_i64, get_var_int, convert_var_int, get_i64, convert_i64,
    lemma_be_field_round_trip, lemma_pow256_values, lemma_var_int_round_trip,
};

verus! {

/// StatusRequest (id 0): no fields.
pub struct Status {
}

impl Status {
    pub fn packet_id() -> (r: i32)
        ensures
            r == 0,
    {
        0
    }

    /// The encoding of the fields: none.
    pub open spec fn spec_fields() -> Seq<u8> {
        seq![]
    }

    /// The parse of the fields: consumes nothing.
    pub open spec fn spec_get(data: Seq<u8>) -> Result<Seq<u8>, PacketError> {
        Ok(data)
    }

    /// Consumes nothing.
    pub fn get(data: &mut Vec<u8>) -> (r: Result<Self, PacketError>)
        ensures
            r is Ok,
            final(data)@ == old(data)@,
    {
        Ok(Status {  })
    }

    /// Emits only the VarInt packet id.
    pub fn convert(&self) -> (r: Vec<u8>)
        ensures
            r@ == spec_var_bytes(0) + Self::spec_fields(),
    {
        let data = convert_var_int(Self::packet_id());
        proof {
            assert(data@ + Seq::<u8>::empty() =~= data@);
        }
        data
    }
}

/// Ping (id 1): an arbitrary payload the server echoes back.
pub struct Ping {
    pub payload: i64,
}

impl View for Ping {
    type V = i64;

    open spec fn view(&self) -> i64 {
        self.payload
    }
}

impl Ping {
    pub fn packet_id() -> (r: i32)
        ensures
            r == 1,
    {
        1
    }

    /// The encoding of the fields.
    pub open spec fn spec_fields(v: i64) -> Seq<u8> {
        spec_be_bytes(spec_u64_of_i64(v) as nat, 8)
    }

    /// The parse of the fields from a buffer.
    pub open spec fn spec_get(data: Seq<u8>) -> Result<(i64, Seq<u8>), PacketError> {
        match spec_get_be(data, 8) {
            Ok(q) => Ok((spec_i64_of_u64(q.0 as u64), q.1)),
            Err(e) => Err(e),
        }
    }

    /// Consumes the payload.
    pub fn get(data: &mut Vec<u8>) -> (r: Result<Self, PacketError>)
        ensures
            match r {
                Ok(p) => Self::spec_get(old(data)@) == Ok::<(i64, Seq<u8>), PacketError>(
                    (p@, final(data)@),
                ),
                Err(e) => Self::spec_get(old(data)@) == Err::<(i64, Seq<u8>), PacketError>(e),
            },
    {
        proof {
            reveal(crate::mc_types::spec_get_be);
        }
        let payload = get_i64(data)?;
        Ok(Ping { payload })
    }

    /// Emits the VarInt packet id, then the payload.
    pub fn convert(&self) -> (r: Vec<u8>)
        ensures
            r@ == spec_var_bytes(1) + Self::spec_fields(self@),
    {
        let mut data = convert_var_int(Self::packet_id());
        let mut part = convert_i64(self.payload);
        data.append(&mut part);
        data
    }
}

/// Ping round trip.
pub proof fn lemma_ping_round_trip(v: i64, rest: Seq<u8>)
    ensures
        Ping::spec_get(Ping::spec_fields(v) + rest) == Ok::<(i64, Seq<u8>), PacketError>((v, rest)),
{
    lemma_pow256_values();
    lemma_be_field_round_trip(spec_u64_of_i64(v) as nat, 8, rest);
}

/// The serverbound Status packets, tagged by id.
pub enum StatusPackets {
    Status(Status),
    Ping(Ping),
}

impl StatusPackets {
    /// Reads a frame's payload: peels the VarInt id and decodes the matching
    /// packet; any other id fails with InvalidPacketId.
    pub fn read(data: &mut Vec<u8>) -> (r: Result<Self, PacketError>)
        ensures
            match r {
                Ok(p) => ({
                    &&& spec_get_var_int(old(data)@) matches Ok(q)
                    &&& match p {
                        StatusPackets::Status(x) => q.0 == 0 && final(data)@ == q.1,
                        StatusPackets::Ping(x) => q.0 == 1 && Ping::spec_get(q.1) == Ok::<
                            (i64, Seq<u8>),
                            PacketError,
                        >((x@, final(data)@)),
                    }
                }),
                Err(e) => match spec_get_var_int(old(data)@) {
                    Ok(q) => if q.0 == 1 {
                        Ping::spec_get(q.1) == Err::<(i64, Seq<u8>), PacketError>(e)
                    } else {
                        q.0 != 0 && e == PacketError::InvalidPacketId
                    },
                    Err(e2) => e == e2,
                },
            },
    {
        let packet_id = get_var_int(data)?;
        if packet_id == 0 {
            Ok(StatusPackets::Status(Status::get(data)?))
        } else if packet_id == 1 {
            Ok(StatusPackets::Ping(Ping::get(data)?))
        } else {
            Err(PacketError::InvalidPacketId)
        }
    }
}

/// The content of one serverbound Status-phase packet.
pub enum StatusPacketsView {
    Status,
    Ping(i64),
}

/// The frame payload that encodes one packet of this phase and direction:
/// its VarInt id, then its fields.
pub open spec fn spec_encode_status(v: StatusPacketsView) -> Seq<u8> {
    match v {
        StatusPacketsView::Status => spec_var_bytes(0) + Status::spec_fields(),
        StatusPacketsView::Ping(x) => spec_var_bytes(1) + Ping::spec_fields(x),
    }
}

/// Phase dispatch: the encoded bytes of any packet of this phase and
/// direction carry its own id, and its fields parse back to the packet;
/// `read`'s contract then yields exactly the matching variant, and any
/// foreign id fails with InvalidPacketId.
pub proof fn lemma_status_dispatch(v: StatusPacketsView)
    ensures
        match v {
            StatusPacketsView::Status => spec_get_var_int(spec_encode_status(v)) == Ok::<
                (i32, Seq<u8>),
                PacketError,
            >((0i32, Seq::<u8>::empty())),
            StatusPacketsView::Ping(x) => {
                &&& spec_get_var_int(spec_encode_status(v)) == Ok::<(i32, Seq<u8>), PacketError>(
                    (1i32, Ping::spec_fields(x)),
                )
                &&& Ping::spec_get(Ping::spec_fields(x)) == Ok::<(i64, Seq<u8>), PacketError>(
                    (x, Seq::<u8>::empty()),
                )
            },
        },
{
    match v {
        StatusPacketsView::Status => {
            lemma_var_int_round_trip(0i32, Seq::<u8>::empty());
            assert(spec_encode_status(v) =~= crate::mc_types::spec_var_bytes(0)
                + Seq::<u8>::empty());
        },
        StatusPacketsView::Ping(x) => {
            let fields = Ping::spec_fields(x);
            lemma_var_int_round_trip(1i32, fields);
            lemma_ping_round_trip(x, Seq::<u8>::empty());
            assert(fields + Seq::<u8>::empty() =~= fields);
        },
    }
}

} // verus!
