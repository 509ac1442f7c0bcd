//! Clientbound Status packets, and the fields of the status JSON document.

use vstd::prelude::*;
use crate::mc_types::{
    Chat, PacketError, spec_var_bytes, spec_get_var_int, spec_get_prefixed_bytes, spec_utf8_lossy,
    spec_convert_string, spec_get_be, spec_be_bytes, spec_i64_of_u64,
    spec_u64_of_i64, get_var_int, convert_var_int, get_string, convert_string, get_i64,
    convert_i64, lemma_var_int_round_trip, lemma_string_round_trip, lemma_be_field_round_trip,
    lemma_pow256_values,
};

verus! {

/// The `version` object of a status response.
pub struct StatusVersion {
    pub name: String,
    pub protocol: i32,
}

/// The `description`: either a plain string or a chat object.
pub enum StatusDescription {
    String(String),
    Chat(Chat),
}

/// One entry of the player sample.
pub struct StatusPlayerInfo {
    pub name: String,
    pub id: String,
}

/// The `players` object of a status response.
pub struct StatusPlayers {
    pub max: i32,
    pub online: i32,
    pub sample: Option<Vec<StatusPlayerInfo>>,
}

/// The whole status JSON document, field by field.
pub struct StatusResponseData {
    pub version: StatusVersion,
    pub description: StatusDescription,
    pub players: StatusPlayers,
    pub favicon: Option<String>,
    pub enforces_secure_chat: Option<bool>,
    pub previews_chat: Option<bool>,
}

/// StatusResponse (id 0): the status JSON as a String field.
pub struct Status {
    pub response: String,
}

impl View for Status {
    type V = Seq<char>;

    open spec fn view(&self) -> Seq<char> {
        self.response@
    }
}

impl Status {
    pub fn packet_id() -> (r: i32)
        ensures
            r == 0,
    {
        0
    }

    /// The encoding of the fields.
    pub open spec fn spec_fields(v: Seq<char>) -> Seq<u8> {
        spec_convert_string(v)
    }

    /// The parse of the fields from a buffer.
    pub open spec fn spec_get(data: Seq<u8>) -> Result<(Seq<char>, Seq<u8>), PacketError> {
        match spec_get_prefixed_bytes(data) {
            Ok(q) => Ok((spec_utf8_lossy(q.0), q.1)),
            Err(e) => Err(e),
        }
    }

    /// Consumes the response string.
    pub fn get(data: &mut Vec<u8>) -> (r: Result<Self, PacketError>)
        ensures
            match r {
                Ok(p) => Self::spec_get(old(data)@) == Ok::<(Seq<char>, Seq<u8>), PacketError>(
                    (p@, final(data)@),
                ),
                Err(e) => Self::spec_get(old(data)@) == Err::<(Seq<char>, Seq<u8>), PacketError>(e),
            },
    {
        let response = get_string(data)?;
        Ok(Status { response })
    }

    /// Emits the VarInt packet id, then the response string.
    pub fn convert(&self) -> (r: Vec<u8>)
        requires
            vstd::utf8::encode_utf8(self.response@).len() < 0x80000000,
        ensures
            r@ == spec_var_bytes(0) + Self::spec_fields(self@),
    {
        let mut data = convert_var_int(Self::packet_id());
        let mut part = convert_string(self.response.as_str());
        data.append(&mut part);
        data
    }
}

/// Status round trip.
pub proof fn lemma_status_round_trip(v: Seq<char>, rest: Seq<u8>)
    requires
        vstd::utf8::encode_utf8(v).len() < 0x80000000,
    ensures
        Status::spec_get(Status::spec_fields(v) + rest) == Ok::<(Seq<char>, Seq<u8>), PacketError>(
            (v, rest),
        ),
{
    lemma_string_round_trip(v, rest);
}

/// Pong (id 1): echoes the Ping payload.
pub struct Ping {
    pub payload: i64,
}

impl View for Ping {
    type V = i64;

    open spec fn view(&self) -> i64 {
        self.payload
    }
}

impl Ping {
    pub fn packet_id() -> (r: i32)
        ensures
            r == 1,
    {
        1
    }

    /// The encoding of the fields.
    pub open spec fn spec_fields(v: i64) -> Seq<u8> {
        spec_be_bytes(spec_u64_of_i64(v) as nat, 8)
    }

    /// The parse of the fields from a buffer.
    pub open spec fn spec_get(data: Seq<u8>) -> Result<(i64, Seq<u8>), PacketError> {
        match spec_get_be(data, 8) {
            Ok(q) => Ok((spec_i64_of_u64(q.0 as u64), q.1)),
            Err(e) => Err(e),
        }
    }

    /// Consumes the payload.
    pub fn get(data: &mut Vec<u8>) -> (r: Result<Self, PacketError>)
        ensures
            match r {
                Ok(p) => Self::spec_get(old(data)@) == Ok::<(i64, Seq<u8>), PacketError>(
                    (p@, final(data)@),
                ),
                Err(e) => Self::spec_get(old(data)@) == Err::<(i64, Seq<u8>), PacketError>(e),
            },
    {
        proof {
            reveal(crate::mc_types::spec_get_be);
        }
        let payload = get_i64(data)?;
        Ok(Ping { payload })
    }

    /// Emits the VarInt packet id, then the payload.
    pub fn convert(&self) -> (r: Vec<u8>)
        ensures
            r@ == spec_var_bytes(1) + Self::spec_fields(self@),
    {
        let mut data = convert_var_int(Self::packet_id());
        let mut part = convert_i64(self.payload);
        data.append(&mut part);
        data
    }
}

/// Pong round trip.
pub proof fn lemma_ping_round_trip(v: i64, rest: Seq<u8>)
    ensures
        Ping::spec_get(Ping::spec_fields(v) + rest) == Ok::<(i64, Seq<u8>), PacketError>((v, rest)),
{
    lemma_pow256_values();
    lemma_be_field_round_trip(spec_u64_of_i64(v) as nat, 8, rest);
}

/// The clientbound Status packets, tagged by id.
pub enum StatusPackets {
    Status(Status),
    Ping(Ping),
}

impl StatusPackets {
    /// Reads a frame's payload: peels the VarInt id and decodes the matching
    /// packet; any other id fails with InvalidPacketId.
    pub fn read(data: &mut Vec<u8>) -> (r: Result<Self, PacketError>)
        ensures
            match r {
                Ok(p) => ({
                    &&& spec_get_var_int(old(data)@) matches Ok(q)
                    &&& match p {
                        StatusPackets::Status(x) => q.0 == 0 && Status::spec_get(q.1) == Ok::<
                            (Seq<char>, Seq<u8>),
                            PacketError,
                        >((x@, final(data)@)),
                        StatusPackets::Ping(x) => q.0 == 1 && Ping::spec_get(q.1) == Ok::<
                            (i64, Seq<u8>),
                            PacketError,
                        >((x@, final(data)@)),
                    }
                }),
                Err(e) => match spec_get_var_int(old(data)@) {
                    Ok(q) => if q.0 == 0 {
                        Status::spec_get(q.1) == Err::<(Seq<char>, Seq<u8>), PacketError>(e)
                    } else if q.0 == 1 {
                        Ping::spec_get(q.1) == Err::<(i64, Seq<u8>), PacketError>(e)
                    } else {
                        e == PacketError::InvalidPacketId
                    },
                    Err(e2) => e == e2,
                },
            },
    {
        let packet_id = get_var_int(data)?;
        if packet_id == 0 {
            Ok(StatusPackets::Status(Status::get(data)?))
        } else if packet_id == 1 {
            Ok(StatusPackets::Ping(Ping::get(data)?))
        } else {
            Err(PacketError::InvalidPacketId)
        }
    }
}

/// The content of one clientbound Status-phase packet.
pub enum StatusPacketsView {
    Status(Seq<char>),
    Ping(i64),
}

/// The frame payload that encodes one packet of this phase and direction:
/// its VarInt id, then its fields.
pub open spec fn spec_encode_status(v: StatusPacketsView) -> Seq<u8> {
    match v {
        StatusPacketsView::Status(x) => spec_var_bytes(0) + Status::spec_fields(x),
        StatusPacketsView::Ping(x) => spec_var_bytes(1) + Ping::spec_fields(x),
    }
}

/// Phase dispatch: the encoded bytes of any packet of this phase and
/// direction carry its own id, and its fields parse back to the packet;
/// `read`'s contract then yields exactly the matching variant, and any
/// foreign id fails with InvalidPacketId.
pub proof fn lemma_status_dispatch(v: StatusPacketsView)
    requires
        match v {
            StatusPacketsView::Status(x) => vstd::utf8::encode_utf8(x).len() < 0x80000000,
            StatusPacketsView::Ping(x) => true,
        },
    ensures
        match v {
            StatusPacketsView::Status(x) => {
                &&& spec_get_var_int(spec_encode_status(v)) == Ok::<(i32, Seq<u8>), PacketError>(
                    (0i32, Status::spec_fields(x)),
                )
                &&& Status::spec_get(Status::spec_fields(x)) == Ok::<
                    (Seq<char>, Seq<u8>),
                    PacketError,
                >((x, Seq::<u8>::empty()))
            },
            StatusPacketsView::Ping(x) => {
                &&& spec_get_var_int(spec_encode_status(v)) == Ok::<(i32, Seq<u8>), PacketError>(
                    (1i32, Ping::spec_fields(x)),
                )
                &&& Ping::spec_get(Ping::spec_fields(x)) == Ok::<(i64, Seq<u8>), PacketError>(
                    (x, Seq::<u8>::empty()),
                )
            },
        },
{
    match v {
        StatusPacketsView::Status(x) => {
            let fields = Status::spec_fields(x);
            lemma_var_int_round_trip(0i32, fields);
            lemma_status_round_trip(x, Seq::<u8>::empty());
            assert(fields + Seq::<u8>::empty() =~= fields);
        },
        StatusPacketsView::Ping(x) => {
            let fields = Ping::spec_fields(x);
            lemma_var_int_round_trip(1i32, fields);
            lemma_ping_round_trip(x, Seq::<u8>::empty());
            assert(fields + Seq::<u8>::empty() =~= fields);
        },
    }
}

} // verus!
