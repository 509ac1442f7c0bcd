//! Serverbound Login packets.

use vstd::prelude::*;
use crate::mc_types::{
    PacketError, spec_var_bytes, spec_u32_of_i32, spec_get_var_int, spec_get_prefixed_bytes,
    spec_utf8_lossy, spec_convert_string, spec_convert_byte_array, spec_get_be, spec_be_bytes,
    get_var_int, convert_var_int, get_string, convert_string, get_byte_array, convert_byte_array,
    get_bool, convert_bool, get_uuid, convert_uuid, lemma_var_int_round_trip,
    lemma_string_round_trip, lemma_byte_array_round_trip, lemma_be_field_round_trip,
    lemma_pow256_values,
};
use crate::encrypt::copy_bytes;

verus! {

// ---------------------------------------------------------------------------
// LoginStart
// ---------------------------------------------------------------------------

/// The mathematical content of a LoginStart.
pub struct LoginStartView {
    pub name: Seq<char>,
    pub player_uuid: u128,
}

/// LoginStart (id 0): the player's name and UUID.
pub struct LoginStart {
    pub name: String,
    pub player_uuid: u128,
}

impl View for LoginStart {
    type V = LoginStartView;

    open spec fn view(&self) -> LoginStartView {
        LoginStartView { name: self.name@, player_uuid: self.player_uuid }
    }
}

impl LoginStart {
    pub fn packet_id() -> (r: i32)
        ensures
            r == 0,
    {
        0
    }

    /// The encoding of the fields, in declared order.
    pub open spec fn spec_fields(v: LoginStartView) -> Seq<u8> {
        spec_convert_string(v.name) + spec_be_bytes(v.player_uuid as nat, 16)
    }

    /// The parse of the fields from a buffer.
    pub open spec fn spec_get(data: Seq<u8>) -> Result<(LoginStartView, Seq<u8>), PacketError> {
        match spec_get_prefixed_bytes(data) {
            Ok(q1) => match spec_get_be(q1.1, 16) {
                Ok(q2) => Ok(
                    (LoginStartView { name: spec_utf8_lossy(q1.0), player_uuid: q2.0 as u128 }, q2.1),
                ),
                Err(e) => Err(e),
            },
            Err(e) => Err(e),
        }
    }

    /// Consumes the fields in declared order.
    pub fn get(data: &mut Vec<u8>) -> (r: Result<Self, PacketError>)
        ensures
            match r {
                Ok(p) => Self::spec_get(old(data)@) == Ok::<(LoginStartView, Seq<u8>), PacketError>(
                    (p@, final(data)@),
                ),
                Err(e) => Self::spec_get(old(data)@) == Err::<
                    (LoginStartView, Seq<u8>),
                    PacketError,
                >(e),
            },
    {
        proof {
            reveal(crate::mc_types::spec_get_be);
        }
        let name = get_string(data)?;
        let player_uuid = get_uuid(data)?;
        Ok(LoginStart { name, player_uuid })
    }

    /// Emits the VarInt packet id, then the fields in declared order.
    pub fn convert(&self) -> (r: Vec<u8>)
        requires
            vstd::utf8::encode_utf8(self.name@).len() < 0x80000000,
        ensures
            r@ == spec_var_bytes(0) + Self::spec_fields(self@),
    {
        let mut data = convert_var_int(Self::packet_id());
        let mut part = convert_string(self.name.as_str());
        data.append(&mut part);
        let mut part = convert_uuid(self.player_uuid);
        data.append(&mut part);
        data
    }
}

/// LoginStart round trip.
pub proof fn lemma_login_start_round_trip(v: LoginStartView, rest: Seq<u8>)
    requires
        vstd::utf8::encode_utf8(v.name).len() < 0x80000000,
    ensures
        LoginStart::spec_get(LoginStart::spec_fields(v) + rest) == Ok::<
            (LoginStartView, Seq<u8>),
            PacketError,
        >((v, rest)),
{
    let f1 = spec_convert_string(v.name);
    let f2 = spec_be_bytes(v.player_uuid as nat, 16);
    let whole = LoginStart::spec_fields(v) + rest;
    assert(whole =~= f1 + (f2 + rest));
    lemma_string_round_trip(v.name, f2 + rest);
    lemma_pow256_values();
    lemma_be_field_round_trip(v.player_uuid as nat, 16, rest);
}

// ---------------------------------------------------------------------------
// EncryptionResponse
// ---------------------------------------------------------------------------

/// The mathematical content of an EncryptionResponse.
pub struct EncryptionResponseView {
    pub shared_secret: Seq<u8>,
    pub verify_token: Seq<u8>,
}

/// EncryptionResponse (id 1): the RSA-encrypted shared secret and the
/// RSA-encrypted echo of the verify-token.
pub struct EncryptionResponse {
    pub shared_secret: Vec<u8>,
    pub verify_token: Vec<u8>,
}

impl View for EncryptionResponse {
    type V = EncryptionResponseView;

    open spec fn view(&self) -> EncryptionResponseView {
        EncryptionResponseView {
            shared_secret: self.shared_secret@,
            verify_token: self.verify_token@,
        }
    }
}

impl EncryptionResponseView {
    /// Field sizes fit their VarInt length prefixes.
    pub open spec fn wf(self) -> bool {
        self.shared_secret.len() < 0x80000000 && self.verify_token.len() < 0x80000000
    }
}

impl EncryptionResponse {
    pub fn packet_id() -> (r: i32)
        ensures
            r == 1,
    {
        1
    }

    /// The encoding of the fields, in declared order.
    pub open spec fn spec_fields(v: EncryptionResponseView) -> Seq<u8> {
        spec_convert_byte_array(v.shared_secret) + spec_convert_byte_array(v.verify_token)
    }

    /// The parse of the fields from a buffer.
    pub open spec fn spec_get(data: Seq<u8>) -> Result<
        (EncryptionResponseView, Seq<u8>),
        PacketError,
    > {
        match spec_get_prefixed_bytes(data) {
            Ok(q1) => match spec_get_prefixed_bytes(q1.1) {
                Ok(q2) => Ok(
                    (EncryptionResponseView { shared_secret: q1.0, verify_token: q2.0 }, q2.1),
                ),
                Err(e) => Err(e),
            },
            Err(e) => Err(e),
        }
    }

    /// Consumes the fields in declared order.
    pub fn get(data: &mut Vec<u8>) -> (r: Result<Self, PacketError>)
        ensures
            match r {
                Ok(p) => Self::spec_get(old(data)@) == Ok::<
                    (EncryptionResponseView, Seq<u8>),
                    PacketError,
                >((p@, final(data)@)),
                Err(e) => Self::spec_get(old(data)@) == Err::<
                    (EncryptionResponseView, Seq<u8>),
                    PacketError,
                >(e),
            },
    {
        let shared_secret = get_byte_array(data)?;
        let verify_token = get_byte_array(data)?;
        Ok(EncryptionResponse { shared_secret, verify_token })
    }

    /// Emits the VarInt packet id, then the fields in declared order.
    pub fn convert(&self) -> (r: Vec<u8>)
        requires
            self@.wf(),
        ensures
            r@ == spec_var_bytes(1) + Self::spec_fields(self@),
    {
        let mut data = convert_var_int(Self::packet_id());
        let mut secret_copy = copy_bytes(&self.shared_secret);
        let mut part = convert_byte_array(&mut secret_copy);
        data.append(&mut part);
        let mut token_copy = copy_bytes(&self.verify_token);
        let mut part = convert_byte_array(&mut token_copy);
        data.append(&mut part);
        data
    }
}

/// EncryptionResponse round trip.
pub proof fn lemma_encryption_response_round_trip(v: EncryptionResponseView, rest: Seq<u8>)
    requires
        v.wf(),
    ensures
        EncryptionResponse::spec_get(EncryptionResponse::spec_fields(v) + rest) == Ok::<
            (EncryptionResponseView, Seq<u8>),
            PacketError,
        >((v, rest)),
{
    let f1 = spec_convert_byte_array(v.shared_secret);
    let f2 = spec_convert_byte_array(v.verify_token);
    let whole = EncryptionResponse::spec_fields(v) + rest;
    assert(whole =~= f1 + (f2 + rest));
    lemma_byte_array_round_trip(v.shared_secret, f2 + rest);
    lemma_byte_array_round_trip(v.verify_token, rest);
}

// ---------------------------------------------------------------------------
// PluginResponse
// ---------------------------------------------------------------------------

/// The mathematical content of a PluginResponse.
pub struct PluginResponseView {
    pub message_id: i32,
    pub successful: bool,
    pub data: Seq<u8>,
}

/// PluginResponse (id 2): the echoed message id, a success flag, and the
/// raw response payload, which runs to the end of the frame.
pub struct PluginResponse {
    pub message_id: i32,
    pub successful: bool,
    pub data: Vec<u8>,
}

impl View for PluginResponse {
    type V = PluginResponseView;

    open spec fn view(&self) -> PluginResponseView {
        PluginResponseView {
            message_id: self.message_id,
            successful: self.successful,
            data: self.data@,
        }
    }
}

impl PluginResponse {
    pub fn packet_id() -> (r: i32)
        ensures
            r == 2,
    {
        2
    }

    /// The encoding of the fields; the payload is a raw tail.
    pub open spec fn spec_fields(v: PluginResponseView) -> Seq<u8> {
        spec_var_bytes(spec_u32_of_i32(v.message_id) as nat) + seq![
            if v.successful {
                1u8
            } else {
                0u8
            },
        ] + v.data
    }

    /// The parse of the fields: the payload takes every remaining byte.
    pub open spec fn spec_get(data: Seq<u8>) -> Result<(PluginResponseView, Seq<u8>), PacketError> {
        match spec_get_var_int(data) {
            Ok(q1) => if q1.1.len() < 1 {
                Err(PacketError::RanOutOfBytes)
            } else {
                Ok(
                    (
                        PluginResponseView {
                            message_id: q1.0,
                            successful: q1.1[0] != 0,
                            data: q1.1.skip(1),
                        },
                        Seq::<u8>::empty(),
                    ),
                )
            },
            Err(e) => Err(e),
        }
    }

    /// Consumes the fields; the payload takes every remaining byte.
    pub fn get(data: &mut Vec<u8>) -> (r: Result<Self, PacketError>)
        ensures
            match r {
                Ok(p) => Self::spec_get(old(data)@) == Ok::<
                    (PluginResponseView, Seq<u8>),
                    PacketError,
                >((p@, final(data)@)) && final(data)@.len() == 0,
                Err(e) => Self::spec_get(old(data)@) == Err::<
                    (PluginResponseView, Seq<u8>),
                    PacketError,
                >(e),
            },
    {
        let message_id = get_var_int(data)?;
        let successful = get_bool(data)?;
        let mut tail: Vec<u8> = Vec::new();
        core::mem::swap(data, &mut tail);
        Ok(PluginResponse { message_id, successful, data: tail })
    }

    /// Emits the VarInt packet id, then the fields.
    pub fn convert(&self) -> (r: Vec<u8>)
        ensures
            r@ == spec_var_bytes(2) + Self::spec_fields(self@),
    {
        let mut data = convert_var_int(Self::packet_id());
        let mut part = convert_var_int(self.message_id);
        data.append(&mut part);
        let mut part = convert_bool(self.successful);
        data.append(&mut part);
        let mut part = copy_bytes(&self.data);
        data.append(&mut part);
        data
    }
}

/// PluginResponse round trip; a raw-tail packet round-trips on a whole
/// frame.
pub proof fn lemma_plugin_response_round_trip(v: PluginResponseView)
    ensures
        PluginResponse::spec_get(PluginResponse::spec_fields(v)) == Ok::<
            (PluginResponseView, Seq<u8>),
            PacketError,
        >((v, Seq::<u8>::empty())),
{
    let f1 = spec_var_bytes(spec_u32_of_i32(v.message_id) as nat);
    let f2 = seq![
        if v.successful {
            1u8
        } else {
            0u8
        },
    ];
    let whole = PluginResponse::spec_fields(v);
    assert(whole =~= f1 + (f2 + v.data));
    lemma_var_int_round_trip(v.message_id, f2 + v.data);
    assert((f2 + v.data)[0] == f2[0]);
    assert((f2 + v.data).skip(1) =~= v.data);
}

// ---------------------------------------------------------------------------
// Acknowledged
// ---------------------------------------------------------------------------

/// LoginAcknowledged (id 3): no fields; moves the connection to Play.
pub struct Acknowledged {
}

impl Acknowledged {
    pub fn packet_id() -> (r: i32)
        ensures
            r == 3,
    {
        3
    }

    /// Consumes nothing.
    pub fn get(data: &mut Vec<u8>) -> (r: Result<Self, PacketError>)
        ensures
            r is Ok,
            final(data)@ == old(data)@,
    {
        Ok(Acknowledged {  })
    }

    /// Emits only the VarInt packet id.
    pub fn convert(&self) -> (r: Vec<u8>)
        ensures
            r@ == spec_var_bytes(3),
    {
        convert_var_int(Self::packet_id())
    }
}

// ---------------------------------------------------------------------------
// CookieResponse
// ---------------------------------------------------------------------------

/// The mathematical content of a CookieResponse.
pub struct CookieResponseView {
    pub key: Seq<char>,
    pub has_payload: bool,
    pub payload_length: i32,
    pub payload: Seq<u8>,
}

/// CookieResponse (id 4): the echoed cookie key, a presence flag, the
/// payload length, and the raw payload, which runs to the end of the frame.
pub struct CookieResponse {
    pub key: String,
    pub has_payload: bool,
    pub payload_length: i32,
    pub payload: Vec<u8>,
}

impl View for CookieResponse {
    type V = CookieResponseView;

    open spec fn view(&self) -> CookieResponseView {
        CookieResponseView {
            key: self.key@,
            has_payload: self.has_payload,
            payload_length: self.payload_length,
            payload: self.payload@,
        }
    }
}

impl CookieResponse {
    pub fn packet_id() -> (r: i32)
        ensures
            r == 4,
    {
        4
    }

    /// The encoding of the fields; the payload is a raw tail.
    pub open spec fn spec_fields(v: CookieResponseView) -> Seq<u8> {
        spec_convert_string(v.key) + seq![
            if v.has_payload {
                1u8
            } else {
                0u8
            },
        ] + spec_var_bytes(spec_u32_of_i32(v.payload_length) as nat) + v.payload
    }

    /// The parse of the fields: the payload takes every remaining byte.
    pub open spec fn spec_get(data: Seq<u8>) -> Result<(CookieResponseView, Seq<u8>), PacketError> {
        match spec_get_prefixed_bytes(data) {
            Ok(q1) => if q1.1.len() < 1 {
                Err(PacketError::RanOutOfBytes)
            } else {
                match spec_get_var_int(q1.1.skip(1)) {
                    Ok(q2) => Ok(
                        (
                            CookieResponseView {
                                key: spec_utf8_lossy(q1.0),
                                has_payload: q1.1[0] != 0,
                                payload_length: q2.0,
                                payload: q2.1,
                            },
                            Seq::<u8>::empty(),
                        ),
                    ),
                    Err(e) => Err(e),
                }
            },
            Err(e) => Err(e),
        }
    }

    /// Consumes the fields; the payload takes every remaining byte.
    pub fn get(data: &mut Vec<u8>) -> (r: Result<Self, PacketError>)
        ensures
            match r {
                Ok(p) => Self::spec_get(old(data)@) == Ok::<
                    (CookieResponseView, Seq<u8>),
                    PacketError,
                >((p@, final(data)@)) && final(data)@.len() == 0,
                Err(e) => Self::spec_get(old(data)@) == Err::<
                    (CookieResponseView, Seq<u8>),
                    PacketError,
                >(e),
            },
    {
        let key = get_string(data)?;
        let has_payload = get_bool(data)?;
        let payload_length = get_var_int(data)?;
        let mut tail: Vec<u8> = Vec::new();
        core::mem::swap(data, &mut tail);
        Ok(CookieResponse { key, has_payload, payload_length, payload: tail })
    }

    /// Emits the VarInt packet id, then the fields.
    pub fn convert(&self) -> (r: Vec<u8>)
        requires
            vstd::utf8::encode_utf8(self.key@).len() < 0x80000000,
        ensures
            r@ == spec_var_bytes(4) + Self::spec_fields(self@),
    {
        let mut data = convert_var_int(Self::packet_id());
        let mut part = convert_string(self.key.as_str());
        data.append(&mut part);
        let mut part = convert_bool(self.has_payload);
        data.append(&mut part);
        let mut part = convert_var_int(self.payload_length);
        data.append(&mut part);
        let mut part = copy_bytes(&self.payload);
        data.append(&mut part);
        data
    }
}

/// CookieResponse round trip; a raw-tail packet round-trips on a whole
/// frame.
pub proof fn lemma_cookie_response_round_trip(v: CookieResponseView)
    requires
        vstd::utf8::encode_utf8(v.key).len() < 0x80000000,
    ensures
        CookieResponse::spec_get(CookieResponse::spec_fields(v)) == Ok::<
            (CookieResponseView, Seq<u8>),
            PacketError,
        >((v, Seq::<u8>::empty())),
{
    let f1 = spec_convert_string(v.key);
    let f2 = seq![
        if v.has_payload {
            1u8
        } else {
            0u8
        },
    ];
    let f3 = spec_var_bytes(spec_u32_of_i32(v.payload_length) as nat);
    let whole = CookieResponse::spec_fields(v);
    assert(whole =~= f1 + (f2 + (f3 + v.payload)));
    lemma_string_round_trip(v.key, f2 + (f3 + v.payload));
    assert((f2 + (f3 + v.payload))[0] == f2[0]);
    assert((f2 + (f3 + v.payload)).skip(1) =~= f3 + v.payload);
    lemma_var_int_round_trip(v.payload_length, v.payload);
}

// ---------------------------------------------------------------------------
// Dispatch
// ---------------------------------------------------------------------------

/// The serverbound Login packets, tagged by id.
pub enum Login {
    LoginStart(LoginStart),
    EncryptionResponse(EncryptionResponse),
    PluginResponse(PluginResponse),
    Acknowledged(Acknowledged),
    CookieResponse(CookieResponse),
}

impl Login {
    /// Reads a frame's payload: peels the VarInt id and decodes the matching
    /// packet; any other id fails with InvalidPacketId.
    pub fn read(data: &mut Vec<u8>) -> (r: Result<Self, PacketError>)
        ensures
            match r {
                Ok(p) => ({
                    &&& spec_get_var_int(old(data)@) matches Ok(q)
                    &&& match p {
                        Login::LoginStart(x) => q.0 == 0 && LoginStart::spec_get(q.1) == Ok::<
                            (LoginStartView, Seq<u8>),
                            PacketError,
                        >((x@, final(data)@)),
                        Login::EncryptionResponse(x) => q.0 == 1 && EncryptionResponse::spec_get(
                            q.1,
                        ) == Ok::<(EncryptionResponseView, Seq<u8>), PacketError>(
                            (x@, final(data)@),
                        ),
                        Login::PluginResponse(x) => q.0 == 2 && PluginResponse::spec_get(q.1)
                            == Ok::<(PluginResponseView, Seq<u8>), PacketError>(
                            (x@, final(data)@),
                        ),
                        Login::Acknowledged(x) => q.0 == 3 && final(data)@ == q.1,
                        Login::CookieResponse(x) => q.0 == 4 && CookieResponse::spec_get(q.1)
                            == Ok::<(CookieResponseView, Seq<u8>), PacketError>(
                            (x@, final(data)@),
                        ),
                    }
                }),
                Err(e) => match spec_get_var_int(old(data)@) {
                    Ok(q) => if q.0 == 0 {
                        LoginStart::spec_get(q.1) == Err::<(LoginStartView, Seq<u8>), PacketError>(
                            e,
                        )
                    } else if q.0 == 1 {
                        EncryptionResponse::spec_get(q.1) == Err::<
                            (EncryptionResponseView, Seq<u8>),
                            PacketError,
                        >(e)
                    } else if q.0 == 2 {
                        PluginResponse::spec_get(q.1) == Err::<
                            (PluginResponseView, Seq<u8>),
                            PacketError,
                        >(e)
                    } else if q.0 == 4 {
                        CookieResponse::spec_get(q.1) == Err::<
                            (CookieResponseView, Seq<u8>),
                            PacketError,
                        >(e)
                    } else {
                        q.0 != 3 && e == PacketError::InvalidPacketId
                    },
                    Err(e2) => e == e2,
                },
            },
    {
        let packet_id = get_var_int(data)?;
        if packet_id == 0 {
            Ok(Login::LoginStart(LoginStart::get(data)?))
        } else if packet_id == 1 {
            Ok(Login::EncryptionResponse(EncryptionResponse::get(data)?))
        } else if packet_id == 2 {
            Ok(Login::PluginResponse(PluginResponse::get(data)?))
        } else if packet_id == 3 {
            Ok(Login::Acknowledged(Acknowledged::get(data)?))
        } else if packet_id == 4 {
            Ok(Login::CookieResponse(CookieResponse::get(data)?))
        } else {
            Err(PacketError::InvalidPacketId)
        }
    }
}

/// The content of one serverbound Login-phase packet.
pub enum LoginView {
    LoginStart(LoginStartView),
    EncryptionResponse(EncryptionResponseView),
    PluginResponse(PluginResponseView),
    Acknowledged,
    CookieResponse(CookieResponseView),
}

/// The frame payload that encodes one packet of this phase and direction:
/// its VarInt id, then its fields.
pub open spec fn spec_encode_login(v: LoginView) -> Seq<u8> {
    match v {
        LoginView::LoginStart(x) => spec_var_bytes(0) + LoginStart::spec_fields(x),
        LoginView::EncryptionResponse(x) => spec_var_bytes(1) + EncryptionResponse::spec_fields(x),
        LoginView::PluginResponse(x) => spec_var_bytes(2) + PluginResponse::spec_fields(x),
        LoginView::Acknowledged => spec_var_bytes(3),
        LoginView::CookieResponse(x) => spec_var_bytes(4) + CookieResponse::spec_fields(x),
    }
}

/// Size bounds under which a packet of this phase and direction encodes.
pub open spec fn spec_login_view_wf(v: LoginView) -> bool {
    match v {
        LoginView::LoginStart(x) => vstd::utf8::encode_utf8(x.name).len() < 0x80000000,
        LoginView::EncryptionResponse(x) => x.wf(),
        LoginView::PluginResponse(x) => true,
        LoginView::Acknowledged => true,
        LoginView::CookieResponse(x) => vstd::utf8::encode_utf8(x.key).len() < 0x80000000,
    }
}

/// Phase dispatch: the encoded bytes of any packet of this phase and
/// direction carry its own id, and its fields parse back to the packet;
/// `read`'s contract then yields exactly the matching variant, and any
/// foreign id fails with InvalidPacketId.
pub proof fn lemma_login_dispatch(v: LoginView)
    requires
        spec_login_view_wf(v),
    ensures
        match v {
            LoginView::LoginStart(x) => {
                &&& spec_get_var_int(spec_encode_login(v)) == Ok::<(i32, Seq<u8>), PacketError>(
                    (0i32, LoginStart::spec_fields(x)),
                )
                &&& LoginStart::spec_get(LoginStart::spec_fields(x)) == Ok::<
                    (LoginStartView, Seq<u8>),
                    PacketError,
                >((x, Seq::<u8>::empty()))
            },
            LoginView::EncryptionResponse(x) => {
                &&& spec_get_var_int(spec_encode_login(v)) == Ok::<(i32, Seq<u8>), PacketError>(
                    (1i32, EncryptionResponse::spec_fields(x)),
                )
                &&& EncryptionResponse::spec_get(EncryptionResponse::spec_fields(x)) == Ok::<
                    (EncryptionResponseView, Seq<u8>),
                    PacketError,
                >((x, Seq::<u8>::empty()))
            },
            LoginView::PluginResponse(x) => {
                &&& spec_get_var_int(spec_encode_login(v)) == Ok::<(i32, Seq<u8>), PacketError>(
                    (2i32, PluginResponse::spec_fields(x)),
                )
                &&& PluginResponse::spec_get(PluginResponse::spec_fields(x)) == Ok::<
                    (PluginResponseView, Seq<u8>),
                    PacketError,
                >((x, Seq::<u8>::empty()))
            },
            LoginView::Acknowledged => spec_get_var_int(spec_encode_login(v)) == Ok::<
                (i32, Seq<u8>),
                PacketError,
            >((3i32, Seq::<u8>::empty())),
            LoginView::CookieResponse(x) => {
                &&& spec_get_var_int(spec_encode_login(v)) == Ok::<(i32, Seq<u8>), PacketError>(
                    (4i32, CookieResponse::spec_fields(x)),
                )
                &&& CookieResponse::spec_get(CookieResponse::spec_fields(x)) == Ok::<
                    (CookieResponseView, Seq<u8>),
                    PacketError,
                >((x, Seq::<u8>::empty()))
            },
        },
{
    match v {
        LoginView::LoginStart(x) => {
            let fields = LoginStart::spec_fields(x);
            lemma_var_int_round_trip(0i32, fields);
            lemma_login_start_round_trip(x, Seq::<u8>::empty());
            assert(fields + Seq::<u8>::empty() =~= fields);
        },
        LoginView::EncryptionResponse(x) => {
            let fields = EncryptionResponse::spec_fields(x);
            lemma_var_int_round_trip(1i32, fields);
            lemma_encryption_response_round_trip(x, Seq::<u8>::empty());
            assert(fields + Seq::<u8>::empty() =~= fields);
        },
        LoginView::PluginResponse(x) => {
            let fields = PluginResponse::spec_fields(x);
            lemma_var_int_round_trip(2i32, fields);
            lemma_plugin_response_round_trip(x);
        },
        LoginView::Acknowledged => {
            lemma_var_int_round_trip(3i32, Seq::<u8>::empty());
            assert(spec_encode_login(v) =~= spec_var_bytes(3) + Seq::<u8>::empty());
        },
        LoginView::CookieResponse(x) => {
            let fields = CookieResponse::spec_fields(x);
            lemma_var_int_round_trip(4i32, fields);
            lemma_cookie_response_round_trip(x);
        },
    }
}

} // verus!
