//! Clientbound Login packets.

use vstd::prelude::*;
use crate::mc_types::{
    PacketError, spec_var_bytes, spec_u32_of_i32, spec_get_var_int, spec_get_prefixed_bytes,
    spec_utf8_lossy, spec_convert_string, spec_convert_byte_array, spec_get_be, spec_be_bytes,
    get_var_int, convert_var_int, get_string, convert_string, get_byte_array, convert_byte_array,
    get_bool, convert_bool, get_uuid, convert_uuid, lemma_var_int_round_trip,
    lemma_string_round_trip, lemma_byte_array_round_trip, lemma_be_field_round_trip,
    lemma_pow256_values,
};
use crate::encrypt::copy_bytes;

verus! {

// ---------------------------------------------------------------------------
// Disconnect
// ---------------------------------------------------------------------------

/// Disconnect (id 0): a chat JSON reason; ends the Login phase.
pub struct Disconnect {
    pub reason: String,
}

impl View for Disconnect {
    type V = Seq<char>;

    open spec fn view(&self) -> Seq<char> {
        self.reason@
    }
}

impl Disconnect {
    pub fn packet_id() -> (r: i32)
        ensures
            r == 0,
    {
        0
    }

    /// The encoding of the fields.
    pub open spec fn spec_fields(v: Seq<char>) -> Seq<u8> {
        spec_convert_string(v)
    }

    /// The parse of the fields from a buffer.
    pub open spec fn spec_get(data: Seq<u8>) -> Result<(Seq<char>, Seq<u8>), PacketError> {
        match spec_get_prefixed_bytes(data) {
            Ok(q) => Ok((spec_utf8_lossy(q.0), q.1)),
            Err(e) => Err(e),
        }
    }

    /// Consumes the reason string.
    pub fn get(data: &mut Vec<u8>) -> (r: Result<Self, PacketError>)
        ensures
            match r {
                Ok(p) => Self::spec_get(old(data)@) == Ok::<(Seq<char>, Seq<u8>), PacketError>(
                    (p@, final(data)@),
                ),
                Err(e) => Self::spec_get(old(data)@) == Err::<(Seq<char>, Seq<u8>), PacketError>(e),
            },
    {
        let reason = get_string(data)?;
        Ok(Disconnect { reason })
    }

    /// Emits the VarInt packet id, then the reason.
    pub fn convert(&self) -> (r: Vec<u8>)
        requires
            vstd::utf8::encode_utf8(self.reason@).len() < 0x80000000,
        ensures
            r@ == spec_var_bytes(0) + Self::spec_fields(self@),
    {
        let mut data = convert_var_int(Self::packet_id());
        let mut part = convert_string(self.reason.as_str());
        data.append(&mut part);
        data
    }
}

/// Disconnect round trip.
pub proof fn lemma_disconnect_round_trip(v: Seq<char>, rest: Seq<u8>)
    requires
        vstd::utf8::encode_utf8(v).len() < 0x80000000,
    ensures
        Disconnect::spec_get(Disconnect::spec_fields(v) + rest) == Ok::<
            (Seq<char>, Seq<u8>),
            PacketError,
        >((v, rest)),
{
    lemma_string_round_trip(v, rest);
}

// ---------------------------------------------------------------------------
// EncryptionRequest
// ---------------------------------------------------------------------------

/// The mathematical content of an EncryptionRequest.
pub struct EncryptionRequestView {
    pub server_id: Seq<char>,
    pub public_key: Seq<u8>,
    pub verify_token: Seq<u8>,
    pub should_authenticate: bool,
}

/// EncryptionRequest (id 1): the server id, the server's public key in
/// X.509 SubjectPublicKeyInfo DER form, the 16-byte verify-token, and
/// whether the client should authenticate with the session server.
pub struct EncryptionRequest {
    pub server_id: String,
    pub public_key: Vec<u8>,
    pub verify_token: Vec<u8>,
    pub should_authenticate: bool,
}

impl View for EncryptionRequest {
    type V = EncryptionRequestView;

    open spec fn view(&self) -> EncryptionRequestView {
        EncryptionRequestView {
            server_id: self.server_id@,
            public_key: self.public_key@,
            verify_token: self.verify_token@,
            should_authenticate: self.should_authenticate,
        }
    }
}

impl EncryptionRequestView {
    /// Field sizes fit their VarInt length prefixes.
    pub open spec fn wf(self) -> bool {
        &&& vstd::utf8::encode_utf8(self.server_id).len() < 0x80000000
        &&& self.public_key.len() < 0x80000000
        &&& self.verify_token.len() < 0x80000000
    }
}

impl EncryptionRequest {
    pub fn packet_id() -> (r: i32)
        ensures
            r == 1,
    {
        1
    }

    /// The encoding of the fields, in declared order.
    pub open spec fn spec_fields(v: EncryptionRequestView) -> Seq<u8> {
        spec_convert_string(v.server_id) + spec_convert_byte_array(v.public_key)
            + spec_convert_byte_array(v.verify_token) + seq![
            if v.should_authenticate {
                1u8
            } else {
                0u8
            },
        ]
    }

    /// The parse of the fields from a buffer.
    pub open spec fn spec_get(data: Seq<u8>) -> Result<
        (EncryptionRequestView, Seq<u8>),
        PacketError,
    > {
        match spec_get_prefixed_bytes(data) {
            Ok(q1) => match spec_get_prefixed_bytes(q1.1) {
                Ok(q2) => match spec_get_prefixed_bytes(q2.1) {
                    Ok(q3) => if q3.1.len() < 1 {
                        Err(PacketError::RanOutOfBytes)
                    } else {
                        Ok(
                            (
                                EncryptionRequestView {
                                    server_id: spec_utf8_lossy(q1.0),
                                    public_key: q2.0,
                                    verify_token: q3.0,
                                    should_authenticate: q3.1[0] != 0,
                                },
                                q3.1.skip(1),
                            ),
                        )
                    },
                    Err(e) => Err(e),
                },
                Err(e) => Err(e),
            },
            Err(e) => Err(e),
        }
    }

    /// Consumes the fields in declared order.
    pub fn get(data: &mut Vec<u8>) -> (r: Result<Self, PacketError>)
        ensures
            match r {
                Ok(p) => Self::spec_get(old(data)@) == Ok::<
                    (EncryptionRequestView, Seq<u8>),
                    PacketError,
                >((p@, final(data)@)),
                Err(e) => Self::spec_get(old(data)@) == Err::<
                    (EncryptionRequestView, Seq<u8>),
                    PacketError,
                >(e),
            },
    {
        let server_id = get_string(data)?;
        let public_key = get_byte_array(data)?;
        let verify_token = get_byte_array(data)?;
        let should_authenticate = get_bool(data)?;
        Ok(EncryptionRequest { server_id, public_key, verify_token, should_authenticate })
    }

    /// Emits the VarInt packet id, then the fields in declared order.
    pub fn convert(&self) -> (r: Vec<u8>)
        requires
            self@.wf(),
        ensures
            r@ == spec_var_bytes(1) + Self::spec_fields(self@),
    {
        let mut data = convert_var_int(Self::packet_id());
        let mut part = convert_string(self.server_id.as_str());
        data.append(&mut part);
        let mut key_copy = copy_bytes(&self.public_key);
        let mut part = convert_byte_array(&mut key_copy);
        data.append(&mut part);
        let mut token_copy = copy_bytes(&self.verify_token);
        let mut part = convert_byte_array(&mut token_copy);
        data.append(&mut part);
        let mut part = convert_bool(self.should_authenticate);
        data.append(&mut part);
        data
    }
}

/// EncryptionRequest round trip.
pub proof fn lemma_encryption_request_round_trip(v: EncryptionRequestView, rest: Seq<u8>)
    requires
        v.wf(),
    ensures
        EncryptionRequest::spec_get(EncryptionRequest::spec_fields(v) + rest) == Ok::<
            (EncryptionRequestView, Seq<u8>),
            PacketError,
        >((v, rest)),
{
    let f1 = spec_convert_string(v.server_id);
    let f2 = spec_convert_byte_array(v.public_key);
    let f3 = spec_convert_byte_array(v.verify_token);
    let f4 = seq![
        if v.should_authenticate {
            1u8
        } else {
            0u8
        },
    ];
    let whole = EncryptionRequest::spec_fields(v) + rest;
    assert(whole =~= f1 + (f2 + (f3 + (f4 + rest))));
    lemma_string_round_trip(v.server_id, f2 + (f3 + (f4 + rest)));
    lemma_byte_array_round_trip(v.public_key, f3 + (f4 + rest));
    lemma_byte_array_round_trip(v.verify_token, f4 + rest);
    assert((f4 + rest)[0] == f4[0]);
    assert((f4 + rest).skip(1) =~= rest);
}

// ---------------------------------------------------------------------------
// LoginSuccess and its property array
// ---------------------------------------------------------------------------

/// The mathematical content of one LoginSuccess property.
pub struct LoginSuccessPropertyView {
    pub name: Seq<char>,
    pub value: Seq<char>,
    pub signature: Option<Seq<char>>,
}

/// One profile property: a name, a value, and an optional signature.
pub struct LoginSuccessProperty {
    pub name: String,
    pub value: String,
    pub signature: Option<String>,
}

impl View for LoginSuccessProperty {
    type V = LoginSuccessPropertyView;

    open spec fn view(&self) -> LoginSuccessPropertyView {
        LoginSuccessPropertyView {
            name: self.name@,
            value: self.value@,
            signature: match self.signature {
                Some(s) => Some(s@),
                None => None,
            },
        }
    }
}

impl LoginSuccessPropertyView {
    /// Field sizes fit their VarInt length prefixes.
    pub open spec fn wf(self) -> bool {
        &&& vstd::utf8::encode_utf8(self.name).len() < 0x80000000
        &&& vstd::utf8::encode_utf8(self.value).len() < 0x80000000
        &&& match self.signature {
            Some(s) => vstd::utf8::encode_utf8(s).len() < 0x80000000,
            None => true,
        }
    }
}

impl LoginSuccessProperty {
    /// The encoding of one property: name, value, then a presence flag
    /// followed by the signature when present.
    #[verifier::opaque]
    pub open spec fn spec_fields(v: LoginSuccessPropertyView) -> Seq<u8> {
        spec_convert_string(v.name) + spec_convert_string(v.value) + (match v.signature {
            Some(s) => seq![1u8] + spec_convert_string(s),
            None => seq![0u8],
        })
    }

    /// The parse of one property from a buffer.
    #[verifier::opaque]
    pub open spec fn spec_get(data: Seq<u8>) -> Result<
        (LoginSuccessPropertyView, Seq<u8>),
        PacketError,
    > {
        match spec_get_prefixed_bytes(data) {
            Ok(q1) => match spec_get_prefixed_bytes(q1.1) {
                Ok(q2) => if q2.1.len() < 1 {
                    Err(PacketError::RanOutOfBytes)
                } else if q2.1[0] != 0 {
                    match spec_get_prefixed_bytes(q2.1.skip(1)) {
                        Ok(q3) => Ok(
                            (
                                LoginSuccessPropertyView {
                                    name: spec_utf8_lossy(q1.0),
                                    value: spec_utf8_lossy(q2.0),
                                    signature: Some(spec_utf8_lossy(q3.0)),
                                },
                                q3.1,
                            ),
                        ),
                        Err(e) => Err(e),
                    }
                } else {
                    Ok(
                        (
                            LoginSuccessPropertyView {
                                name: spec_utf8_lossy(q1.0),
                                value: spec_utf8_lossy(q2.0),
                                signature: None,
                            },
                            q2.1.skip(1),
                        ),
                    )
                },
                Err(e) => Err(e),
            },
            Err(e) => Err(e),
        }
    }

    /// Consumes one property.
    pub fn get(data: &mut Vec<u8>) -> (r: Result<Self, PacketError>)
        ensures
            match r {
                Ok(p) => Self::spec_get(old(data)@) == Ok::<
                    (LoginSuccessPropertyView, Seq<u8>),
                    PacketError,
                >((p@, final(data)@)),
                Err(e) => Self::spec_get(old(data)@) == Err::<
                    (LoginSuccessPropertyView, Seq<u8>),
                    PacketError,
                >(e),
            },
    {
        proof {
            reveal(LoginSuccessProperty::spec_get);
        }
        let name = get_string(data)?;
        let value = get_string(data)?;
        let is_signed = get_bool(data)?;
        if is_signed {
            let signature = get_string(data)?;
            Ok(LoginSuccessProperty { name, value, signature: Some(signature) })
        } else {
            Ok(LoginSuccessProperty { name, value, signature: None })
        }
    }

    /// Emits one property's fields.
    pub fn convert(&self) -> (r: Vec<u8>)
        requires
            self@.wf(),
        ensures
            r@ == Self::spec_fields(self@),
    {
        proof {
            reveal(LoginSuccessProperty::spec_fields);
        }
        let mut data = convert_string(self.name.as_str());
        let mut part = convert_string(self.value.as_str());
        data.append(&mut part);
        match &self.signature {
            Some(sig) => {
                let mut part = convert_bool(true);
                data.append(&mut part);
                let mut part = convert_string(sig.as_str());
                data.append(&mut part);
            },
            None => {
                let mut part = convert_bool(false);
                data.append(&mut part);
            },
        }
        data
    }
}

/// Property round trip.
pub proof fn lemma_property_round_trip(v: LoginSuccessPropertyView, rest: Seq<u8>)
    requires
        v.wf(),
    ensures
        LoginSuccessProperty::spec_get(LoginSuccessProperty::spec_fields(v) + rest) == Ok::<
            (LoginSuccessPropertyView, Seq<u8>),
            PacketError,
        >((v, rest)),
{
    reveal(LoginSuccessProperty::spec_fields);
    reveal(LoginSuccessProperty::spec_get);
    let f1 = spec_convert_string(v.name);
    let f2 = spec_convert_string(v.value);
    let whole = LoginSuccessProperty::spec_fields(v) + rest;
    match v.signature {
        Some(s) => {
            let f3 = seq![1u8];
            let f4 = spec_convert_string(s);
            assert(whole =~= f1 + (f2 + (f3 + (f4 + rest))));
            lemma_string_round_trip(v.name, f2 + (f3 + (f4 + rest)));
            lemma_string_round_trip(v.value, f3 + (f4 + rest));
            assert((f3 + (f4 + rest))[0] == 1u8);
            assert((f3 + (f4 + rest)).skip(1) =~= f4 + rest);
            lemma_string_round_trip(s, rest);
        },
        None => {
            let f3 = seq![0u8];
            assert(whole =~= f1 + (f2 + (f3 + rest)));
            lemma_string_round_trip(v.name, f2 + (f3 + rest));
            lemma_string_round_trip(v.value, f3 + rest);
            assert((f3 + rest)[0] == 0u8);
            assert((f3 + rest).skip(1) =~= rest);
        },
    }
}

/// The views of a sequence of properties.
pub open spec fn spec_property_views(s: Seq<LoginSuccessProperty>) -> Seq<LoginSuccessPropertyView> {
    s.map_values(|p: LoginSuccessProperty| p@)
}

/// The encoding of a property sequence, element after element.
pub open spec fn spec_properties_fields(vs: Seq<LoginSuccessPropertyView>) -> Seq<u8>
    decreases vs.len(),
{
    if vs.len() == 0 {
        seq![]
    } else {
        LoginSuccessProperty::spec_fields(vs[0]) + spec_properties_fields(vs.skip(1))
    }
}

/// The parse of `n` consecutive properties.
pub open spec fn spec_get_properties(data: Seq<u8>, n: nat) -> Result<
    (Seq<LoginSuccessPropertyView>, Seq<u8>),
    PacketError,
>
    decreases n,
{
    if n == 0 {
        Ok((seq![], data))
    } else {
        match LoginSuccessProperty::spec_get(data) {
            Ok(q) => match spec_get_properties(q.1, (n - 1) as nat) {
                Ok(q2) => Ok((seq![q.0] + q2.0, q2.1)),
                Err(e) => Err(e),
            },
            Err(e) => Err(e),
        }
    }
}

/// The parse of a property array: a VarInt count then the elements; a
/// negative count reads as zero elements.
pub open spec fn spec_get_property_array(data: Seq<u8>) -> Result<
    (Seq<LoginSuccessPropertyView>, Seq<u8>),
    PacketError,
> {
    match spec_get_var_int(data) {
        Ok(q) => spec_get_properties(
            q.1,
            if q.0 < 0 {
                0
            } else {
                q.0 as nat
            },
        ),
        Err(e) => Err(e),
    }
}

/// Consumes a VarInt count and that many properties.
#[verifier::rlimit(60)]
#[verifier::loop_isolation(false)]
pub fn get_property_array(data: &mut Vec<u8>) -> (r: Result<Vec<LoginSuccessProperty>, PacketError>)
    ensures
        match r {
            Ok(ps) => spec_get_property_array(old(data)@) == Ok::<
                (Seq<LoginSuccessPropertyView>, Seq<u8>),
                PacketError,
            >((spec_property_views(ps@), final(data)@)),
            Err(e) => spec_get_property_array(old(data)@) == Err::<
                (Seq<LoginSuccessPropertyView>, Seq<u8>),
                PacketError,
            >(e),
        },
{
    let count = get_var_int(data)?;
    let n: usize = if count < 0 {
        0
    } else {
        count as usize
    };
    let mut out: Vec<LoginSuccessProperty> = Vec::new();
    let mut i: usize = 0;
    let ghost start = data@;
    proof {
        assert(spec_property_views(out@) =~= Seq::<LoginSuccessPropertyView>::empty());
    }
    while i < n
        invariant
            i <= n,
            spec_get_properties(start, n as nat) == (match spec_get_properties(
                data@,
                (n - i) as nat,
            ) {
                Ok(q) => Ok::<(Seq<LoginSuccessPropertyView>, Seq<u8>), PacketError>(
                    (spec_property_views(out@) + q.0, q.1),
                ),
                Err(e) => Err(e),
            }),
        decreases n - i,
    {
        let ghost prev_views = spec_property_views(out@);
        let p = match LoginSuccessProperty::get(data) {
            Ok(p) => p,
            Err(e) => {
                return Err(e);
            },
        };
        out.push(p);
        proof {
            assert(spec_property_views(out@) =~= prev_views + seq![p@]);
            let inner = spec_get_properties(data@, (n - i - 1) as nat);
            if inner is Ok {
                let q2 = inner->Ok_0;
                assert(prev_views + (seq![p@] + q2.0) =~= spec_property_views(out@) + q2.0);
            }
        }
        i = i + 1;
    }
    proof {
        assert(spec_property_views(out@) + Seq::<LoginSuccessPropertyView>::empty()
            =~= spec_property_views(out@));
    }
    Ok(out)
}

/// Emits a property array: a VarInt count then the elements.
pub fn convert_property_array(array: &Vec<LoginSuccessProperty>) -> (r: Vec<u8>)
    requires
        array@.len() < 0x80000000,
        forall|i: int| 0 <= i < array@.len() ==> (#[trigger] array@[i])@.wf(),
    ensures
        r@ == spec_var_bytes(array@.len()) + spec_properties_fields(spec_property_views(array@)),
{
    let len: usize = array.len();
    let mut data = convert_var_int(len as i32);
    let ghost head = data@;
    let mut i: usize = 0;
    proof {
        assert(spec_u32_of_i32(len as i32) == array@.len());
        assert(head + Seq::<u8>::empty() =~= head);
        assert(spec_property_views(array@).skip(0) =~= spec_property_views(array@));
    }
    while i < array.len()
        invariant
            i <= array@.len(),
            forall|t: int| 0 <= t < array@.len() ==> (#[trigger] array@[t])@.wf(),
            head + spec_properties_fields(spec_property_views(array@)) == data@
                + spec_properties_fields(spec_property_views(array@).skip(i as int)),
        decreases array@.len() - i,
    {
        let ghost prev = data@;
        let mut part = array[i].convert();
        data.append(&mut part);
        proof {
            let views = spec_property_views(array@);
            assert(views.skip(i as int)[0] == views[i as int]);
            assert(views.skip(i as int).skip(1) =~= views.skip(i as int + 1));
            assert(prev + (LoginSuccessProperty::spec_fields(views[i as int])
                + spec_properties_fields(views.skip(i as int + 1))) =~= data@
                + spec_properties_fields(views.skip(i as int + 1)));
        }
        i = i + 1;
    }
    proof {
        let views = spec_property_views(array@);
        assert(views.skip(views.len() as int) =~= Seq::<LoginSuccessPropertyView>::empty());
        assert(data@ + Seq::<u8>::empty() =~= data@);
    }
    data
}

/// Property array round trip.
#[verifier::rlimit(100)]
#[verifier::spinoff_prover]
pub proof fn lemma_properties_round_trip(vs: Seq<LoginSuccessPropertyView>, rest: Seq<u8>)
    requires
        forall|i: int| 0 <= i < vs.len() ==> (#[trigger] vs[i]).wf(),
    ensures
        spec_get_properties(spec_properties_fields(vs) + rest, vs.len()) == Ok::<
            (Seq<LoginSuccessPropertyView>, Seq<u8>),
            PacketError,
        >((vs, rest)),
    decreases vs.len(),
{
    if vs.len() == 0 {
        assert(spec_properties_fields(vs) + rest =~= rest);
        assert(vs =~= Seq::<LoginSuccessPropertyView>::empty());
    } else {
        let a = LoginSuccessProperty::spec_fields(vs[0]);
        let b = spec_properties_fields(vs.skip(1));
        assert(spec_properties_fields(vs) == a + b);
        assert((a + b) + rest =~= a + (b + rest));
        assert(vs[0].wf());
        lemma_property_round_trip(vs[0], b + rest);
        assert forall|i: int| 0 <= i < vs.skip(1).len() implies (#[trigger] vs.skip(
            1,
        )[i]).wf() by {
            assert(vs.skip(1)[i] == vs[i + 1]);
        }
        lemma_properties_round_trip(vs.skip(1), rest);
        assert(seq![vs[0]] + vs.skip(1) =~= vs);
        assert(spec_get_properties(a + (b + rest), vs.len()) == Ok::<
            (Seq<LoginSuccessPropertyView>, Seq<u8>),
            PacketError,
        >((vs, rest)));
    }
}

/// The mathematical content of a LoginSuccess.
pub struct LoginSuccessView {
    pub uuid: u128,
    pub username: Seq<char>,
    pub properties: Seq<LoginSuccessPropertyView>,
    pub strict_error_handling: bool,
}

/// LoginSuccess (id 2): the player's UUID, name, profile properties, and
/// the strict-error-handling flag.
pub struct LoginSuccess {
    pub uuid: u128,
    pub username: String,
    pub properties: Vec<LoginSuccessProperty>,
    pub strict_error_handling: bool,
}

impl View for LoginSuccess {
    type V = LoginSuccessView;

    open spec fn view(&self) -> LoginSuccessView {
        LoginSuccessView {
            uuid: self.uuid,
            username: self.username@,
            properties: spec_property_views(self.properties@),
            strict_error_handling: self.strict_error_handling,
        }
    }
}

impl LoginSuccessView {
    /// Field sizes fit their VarInt length prefixes.
    pub open spec fn wf(self) -> bool {
        &&& vstd::utf8::encode_utf8(self.username).len() < 0x80000000
        &&& self.properties.len() < 0x80000000
        &&& forall|i: int| 0 <= i < self.properties.len() ==> (#[trigger] self.properties[i]).wf()
    }
}

impl LoginSuccess {
    pub fn packet_id() -> (r: i32)
        ensures
            r == 2,
    {
        2
    }

    /// The encoding of the fields, in declared order.
    pub open spec fn spec_fields(v: LoginSuccessView) -> Seq<u8> {
        spec_be_bytes(v.uuid as nat, 16) + spec_convert_string(v.username) + spec_var_bytes(
            v.properties.len(),
        ) + spec_properties_fields(v.properties) + seq![
            if v.strict_error_handling {
                1u8
            } else {
                0u8
            },
        ]
    }

    /// The parse of the fields from a buffer.
    pub open spec fn spec_get(data: Seq<u8>) -> Result<(LoginSuccessView, Seq<u8>), PacketError> {
        match spec_get_be(data, 16) {
            Ok(q1) => match spec_get_prefixed_bytes(q1.1) {
                Ok(q2) => match spec_get_property_array(q2.1) {
                    Ok(q3) => if q3.1.len() < 1 {
                        Err(PacketError::RanOutOfBytes)
                    } else {
                        Ok(
                            (
                                LoginSuccessView {
                                    uuid: q1.0 as u128,
                                    username: spec_utf8_lossy(q2.0),
                                    properties: q3.0,
                                    strict_error_handling: q3.1[0] != 0,
                                },
                                q3.1.skip(1),
                            ),
                        )
                    },
                    Err(e) => Err(e),
                },
                Err(e) => Err(e),
            },
            Err(e) => Err(e),
        }
    }

    /// Consumes the fields in declared order.
    pub fn get(data: &mut Vec<u8>) -> (r: Result<Self, PacketError>)
        ensures
            match r {
                Ok(p) => Self::spec_get(old(data)@) == Ok::<
                    (LoginSuccessView, Seq<u8>),
                    PacketError,
                >((p@, final(data)@)),
                Err(e) => Self::spec_get(old(data)@) == Err::<
                    (LoginSuccessView, Seq<u8>),
                    PacketError,
                >(e),
            },
    {
        proof {
            reveal(crate::mc_types::spec_get_be);
        }
        let uuid = get_uuid(data)?;
        let username = get_string(data)?;
        let properties = get_property_array(data)?;
        let strict_error_handling = get_bool(data)?;
        Ok(LoginSuccess { uuid, username, properties, strict_error_handling })
    }

    /// Emits the VarInt packet id, then the fields in declared order.
    pub fn convert(&self) -> (r: Vec<u8>)
        requires
            self@.wf(),
        ensures
            r@ == spec_var_bytes(2) + Self::spec_fields(self@),
    {
        let mut data = convert_var_int(Self::packet_id());
        let mut part = convert_uuid(self.uuid);
        data.append(&mut part);
        let mut part = convert_string(self.username.as_str());
        data.append(&mut part);
        proof {
            assert forall|i: int|
                0 <= i < self.properties@.len() implies (#[trigger] self.properties@[i])@.wf() by {
                assert(self@.properties[i] == self.properties@[i]@);
            }
        }
        let mut part = convert_property_array(&self.properties);
        data.append(&mut part);
        let mut part = convert_bool(self.strict_error_handling);
        data.append(&mut part);
        data
    }
}

/// LoginSuccess round trip.
#[verifier::rlimit(100)]
pub proof fn lemma_login_success_round_trip(v: LoginSuccessView, rest: Seq<u8>)
    requires
        v.wf(),
    ensures
        LoginSuccess::spec_get(LoginSuccess::spec_fields(v) + rest) == Ok::<
            (LoginSuccessView, Seq<u8>),
            PacketError,
        >((v, rest)),
{
    let f1 = spec_be_bytes(v.uuid as nat, 16);
    let f2 = spec_convert_string(v.username);
    let f3 = spec_var_bytes(v.properties.len());
    let f4 = spec_properties_fields(v.properties);
    let f5 = seq![
        if v.strict_error_handling {
            1u8
        } else {
            0u8
        },
    ];
    let whole = LoginSuccess::spec_fields(v) + rest;
    assert(whole =~= f1 + (f2 + (f3 + (f4 + (f5 + rest)))));
    lemma_pow256_values();
    lemma_be_field_round_trip(v.uuid as nat, 16, f2 + (f3 + (f4 + (f5 + rest))));
    lemma_string_round_trip(v.username, f3 + (f4 + (f5 + rest)));
    let count: i32 = v.properties.len() as i32;
    assert(spec_u32_of_i32(count) == v.properties.len());
    assert(f3 == spec_var_bytes(spec_u32_of_i32(count) as nat));
    lemma_var_int_round_trip(count, f4 + (f5 + rest));
    lemma_properties_round_trip(v.properties, f5 + rest);
    assert((f5 + rest)[0] == f5[0]);
    assert((f5 + rest).skip(1) =~= rest);
}

// ---------------------------------------------------------------------------
// SetCompression
// ---------------------------------------------------------------------------

/// SetCompression (id 3): the size threshold above which frames are
/// compressed.
pub struct SetCompression {
    pub threshold: i32,
}

impl View for SetCompression {
    type V = i32;

    open spec fn view(&self) -> i32 {
        self.threshold
    }
}

impl SetCompression {
    pub fn packet_id() -> (r: i32)
        ensures
            r == 3,
    {
        3
    }

    /// The encoding of the fields.
    pub open spec fn spec_fields(v: i32) -> Seq<u8> {
        spec_var_bytes(spec_u32_of_i32(v) as nat)
    }

    /// The parse of the fields from a buffer.
    pub open spec fn spec_get(data: Seq<u8>) -> Result<(i32, Seq<u8>), PacketError> {
        spec_get_var_int(data)
    }

    /// Consumes the threshold.
    pub fn get(data: &mut Vec<u8>) -> (r: Result<Self, PacketError>)
        ensures
            match r {
                Ok(p) => Self::spec_get(old(data)@) == Ok::<(i32, Seq<u8>), PacketError>(
                    (p@, final(data)@),
                ),
                Err(e) => Self::spec_get(old(data)@) == Err::<(i32, Seq<u8>), PacketError>(e),
            },
    {
        let threshold = get_var_int(data)?;
        Ok(SetCompression { threshold })
    }

    /// Emits the VarInt packet id, then the threshold.
    pub fn convert(&self) -> (r: Vec<u8>)
        ensures
            r@ == spec_var_bytes(3) + Self::spec_fields(self@),
    {
        let mut data = convert_var_int(Self::packet_id());
        let mut part = convert_var_int(self.threshold);
        data.append(&mut part);
        data
    }
}

/// SetCompression round trip.
pub proof fn lemma_set_compression_round_trip(v: i32, rest: Seq<u8>)
    ensures
        SetCompression::spec_get(SetCompression::spec_fields(v) + rest) == Ok::<
            (i32, Seq<u8>),
            PacketError,
        >((v, rest)),
{
    lemma_var_int_round_trip(v, rest);
}

// ---------------------------------------------------------------------------
// PluginRequest
// ---------------------------------------------------------------------------

/// The mathematical content of a PluginRequest.
pub struct PluginRequestView {
    pub message_id: i32,
    pub channel: Seq<char>,
    pub data: Seq<u8>,
}

/// PluginRequest (id 4): a message id, a channel name, and the channel's
/// raw payload, which runs to the end of the frame.
pub struct PluginRequest {
    pub message_id: i32,
    pub channel: String,
    pub data: Vec<u8>,
}

impl View for PluginRequest {
    type V = PluginRequestView;

    open spec fn view(&self) -> PluginRequestView {
        PluginRequestView {
            message_id: self.message_id,
            channel: self.channel@,
            data: self.data@,
        }
    }
}

impl PluginRequest {
    pub fn packet_id() -> (r: i32)
        ensures
            r == 4,
    {
        4
    }

    /// The encoding of the fields; the payload is a raw tail.
    pub open spec fn spec_fields(v: PluginRequestView) -> Seq<u8> {
        spec_var_bytes(spec_u32_of_i32(v.message_id) as nat) + spec_convert_string(v.channel)
            + v.data
    }

    /// The parse of the fields: the payload takes every remaining byte.
    pub open spec fn spec_get(data: Seq<u8>) -> Result<(PluginRequestView, Seq<u8>), PacketError> {
        match spec_get_var_int(data) {
            Ok(q1) => match spec_get_prefixed_bytes(q1.1) {
                Ok(q2) => Ok(
                    (
                        PluginRequestView {
                            message_id: q1.0,
                            channel: spec_utf8_lossy(q2.0),
                            data: q2.1,
                        },
                        Seq::<u8>::empty(),
                    ),
                ),
                Err(e) => Err(e),
            },
            Err(e) => Err(e),
        }
    }

    /// Consumes the fields; the payload takes every remaining byte.
    pub fn get(data: &mut Vec<u8>) -> (r: Result<Self, PacketError>)
        ensures
            match r {
                Ok(p) => Self::spec_get(old(data)@) == Ok::<
                    (PluginRequestView, Seq<u8>),
                    PacketError,
                >((p@, final(data)@)) && final(data)@.len() == 0,
                Err(e) => Self::spec_get(old(data)@) == Err::<
                    (PluginRequestView, Seq<u8>),
                    PacketError,
                >(e),
            },
    {
        let message_id = get_var_int(data)?;
        let channel = get_string(data)?;
        let mut tail: Vec<u8> = Vec::new();
        core::mem::swap(data, &mut tail);
        Ok(PluginRequest { message_id, channel, data: tail })
    }

    /// Emits the VarInt packet id, then the fields.
    pub fn convert(&self) -> (r: Vec<u8>)
        requires
            vstd::utf8::encode_utf8(self.channel@).len() < 0x80000000,
        ensures
            r@ == spec_var_bytes(4) + Self::spec_fields(self@),
    {
        let mut data = convert_var_int(Self::packet_id());
        let mut part = convert_var_int(self.message_id);
        data.append(&mut part);
        let mut part = convert_string(self.channel.as_str());
        data.append(&mut part);
        let mut part = copy_bytes(&self.data);
        data.append(&mut part);
        data
    }
}

/// PluginRequest round trip; a raw-tail packet round-trips on a whole frame.
pub proof fn lemma_plugin_request_round_trip(v: PluginRequestView)
    requires
        vstd::utf8::encode_utf8(v.channel).len() < 0x80000000,
    ensures
        PluginRequest::spec_get(PluginRequest::spec_fields(v)) == Ok::<
            (PluginRequestView, Seq<u8>),
            PacketError,
        >((v, Seq::<u8>::empty())),
{
    let f1 = spec_var_bytes(spec_u32_of_i32(v.message_id) as nat);
    let f2 = spec_convert_string(v.channel);
    let whole = PluginRequest::spec_fields(v);
    assert(whole =~= f1 + (f2 + v.data));
    lemma_var_int_round_trip(v.message_id, f2 + v.data);
    lemma_string_round_trip(v.channel, v.data);
}

// ---------------------------------------------------------------------------
// CookieRequest
// ---------------------------------------------------------------------------

/// CookieRequest (id 5): the key of a cookie the server asks back.
pub struct CookieRequest {
    pub key: String,
}

impl View for CookieRequest {
    type V = Seq<char>;

    open spec fn view(&self) -> Seq<char> {
        self.key@
    }
}

impl CookieRequest {
    pub fn packet_id() -> (r: i32)
        ensures
            r == 5,
    {
        5
    }

    /// The encoding of the fields.
    pub open spec fn spec_fields(v: Seq<char>) -> Seq<u8> {
        spec_convert_string(v)
    }

    /// The parse of the fields from a buffer.
    pub open spec fn spec_get(data: Seq<u8>) -> Result<(Seq<char>, Seq<u8>), PacketError> {
        match spec_get_prefixed_bytes(data) {
            Ok(q) => Ok((spec_utf8_lossy(q.0), q.1)),
            Err(e) => Err(e),
        }
    }

    /// Consumes the key.
    pub fn get(data: &mut Vec<u8>) -> (r: Result<Self, PacketError>)
        ensures
            match r {
                Ok(p) => Self::spec_get(old(data)@) == Ok::<(Seq<char>, Seq<u8>), PacketError>(
                    (p@, final(data)@),
                ),
                Err(e) => Self::spec_get(old(data)@) == Err::<(Seq<char>, Seq<u8>), PacketError>(e),
            },
    {
        let key = get_string(data)?;
        Ok(CookieRequest { key })
    }

    /// Emits the VarInt packet id, then the key.
    pub fn convert(&self) -> (r: Vec<u8>)
        requires
            vstd::utf8::encode_utf8(self.key@).len() < 0x80000000,
        ensures
            r@ == spec_var_bytes(5) + Self::spec_fields(self@),
    {
        let mut data = convert_var_int(Self::packet_id());
        let mut part = convert_string(self.key.as_str());
        data.append(&mut part);
        data
    }
}

/// CookieRequest round trip.
pub proof fn lemma_cookie_request_round_trip(v: Seq<char>, rest: Seq<u8>)
    requires
        vstd::utf8::encode_utf8(v).len() < 0x80000000,
    ensures
        CookieRequest::spec_get(CookieRequest::spec_fields(v) + rest) == Ok::<
            (Seq<char>, Seq<u8>),
            PacketError,
        >((v, rest)),
{
    lemma_string_round_trip(v, rest);
}

// ---------------------------------------------------------------------------
// Dispatch
// ---------------------------------------------------------------------------

/// The clientbound Login packets, tagged by id.
pub enum Login {
    Disconnect(Disconnect),
    EncryptionRequest(EncryptionRequest),
    LoginSuccess(LoginSuccess),
    SetCompression(SetCompression),
    PluginRequest(PluginRequest),
    CookieRequest(CookieRequest),
}

impl Login {
    /// Reads a frame's payload: peels the VarInt id and decodes the matching
    /// packet; any other id fails with InvalidPacketId.
    pub fn read(data: &mut Vec<u8>) -> (r: Result<Self, PacketError>)
        ensures
            match r {
                Ok(p) => ({
                    &&& spec_get_var_int(old(data)@) matches Ok(q)
                    &&& match p {
                        Login::Disconnect(x) => q.0 == 0 && Disconnect::spec_get(q.1) == Ok::<
                            (Seq<char>, Seq<u8>),
                            PacketError,
                        >((x@, final(data)@)),
                        Login::EncryptionRequest(x) => q.0 == 1 && EncryptionRequest::spec_get(q.1)
                            == Ok::<(EncryptionRequestView, Seq<u8>), PacketError>(
                            (x@, final(data)@),
                        ),
                        Login::LoginSuccess(x) => q.0 == 2 && LoginSuccess::spec_get(q.1) == Ok::<
                            (LoginSuccessView, Seq<u8>),
                            PacketError,
                        >((x@, final(data)@)),
                        Login::SetCompression(x) => q.0 == 3 && SetCompression::spec_get(q.1)
                            == Ok::<(i32, Seq<u8>), PacketError>((x@, final(data)@)),
                        Login::PluginRequest(x) => q.0 == 4 && PluginRequest::spec_get(q.1) == Ok::<
                            (PluginRequestView, Seq<u8>),
                            PacketError,
                        >((x@, final(data)@)),
                        Login::CookieRequest(x) => q.0 == 5 && CookieRequest::spec_get(q.1) == Ok::<
                            (Seq<char>, Seq<u8>),
                            PacketError,
                        >((x@, final(data)@)),
                    }
                }),
                Err(e) => match spec_get_var_int(old(data)@) {
                    Ok(q) => if q.0 == 0 {
                        Disconnect::spec_get(q.1) == Err::<(Seq<char>, Seq<u8>), PacketError>(e)
                    } else if q.0 == 1 {
                        EncryptionRequest::spec_get(q.1) == Err::<
                            (EncryptionRequestView, Seq<u8>),
                            PacketError,
                        >(e)
                    } else if q.0 == 2 {
                        LoginSuccess::spec_get(q.1) == Err::<
                            (LoginSuccessView, Seq<u8>),
                            PacketError,
                        >(e)
                    } else if q.0 == 3 {
                        SetCompression::spec_get(q.1) == Err::<(i32, Seq<u8>), PacketError>(e)
                    } else if q.0 == 4 {
                        PluginRequest::spec_get(q.1) == Err::<
                            (PluginRequestView, Seq<u8>),
                            PacketError,
                        >(e)
                    } else if q.0 == 5 {
                        CookieRequest::spec_get(q.1) == Err::<(Seq<char>, Seq<u8>), PacketError>(e)
                    } else {
                        e == PacketError::InvalidPacketId
                    },
                    Err(e2) => e == e2,
                },
            },
    {
        let packet_id = get_var_int(data)?;
        if packet_id == 0 {
            Ok(Login::Disconnect(Disconnect::get(data)?))
        } else if packet_id == 1 {
            Ok(Login::EncryptionRequest(EncryptionRequest::get(data)?))
        } else if packet_id == 2 {
            Ok(Login::LoginSuccess(LoginSuccess::get(data)?))
        } else if packet_id == 3 {
            Ok(Login::SetCompression(SetCompression::get(data)?))
        } else if packet_id == 4 {
            Ok(Login::PluginRequest(PluginRequest::get(data)?))
        } else if packet_id == 5 {
            Ok(Login::CookieRequest(CookieRequest::get(data)?))
        } else {
            Err(PacketError::InvalidPacketId)
        }
    }
}

/// The content of one clientbound Login-phase packet.
pub enum LoginView {
    Disconnect(Seq<char>),
    EncryptionRequest(EncryptionRequestView),
    LoginSuccess(LoginSuccessView),
    SetCompression(i32),
    PluginRequest(PluginRequestView),
    CookieRequest(Seq<char>),
}

/// The frame payload that encodes one packet of this phase and direction:
/// its VarInt id, then its fields.
pub open spec fn spec_encode_login(v: LoginView) -> Seq<u8> {
    match v {
        LoginView::Disconnect(x) => spec_var_bytes(0) + Disconnect::spec_fields(x),
        LoginView::EncryptionRequest(x) => spec_var_bytes(1) + EncryptionRequest::spec_fields(x),
        LoginView::LoginSuccess(x) => spec_var_bytes(2) + LoginSuccess::spec_fields(x),
        LoginView::SetCompression(x) => spec_var_bytes(3) + SetCompression::spec_fields(x),
        LoginView::PluginRequest(x) => spec_var_bytes(4) + PluginRequest::spec_fields(x),
        LoginView::CookieRequest(x) => spec_var_bytes(5) + CookieRequest::spec_fields(x),
    }
}

/// Size bounds under which a packet of this phase and direction encodes.
pub open spec fn spec_login_view_wf(v: LoginView) -> bool {
    match v {
        LoginView::Disconnect(x) => vstd::utf8::encode_utf8(x).len() < 0x80000000,
        LoginView::EncryptionRequest(x) => x.wf(),
        LoginView::LoginSuccess(x) => x.wf(),
        LoginView::SetCompression(x) => true,
        LoginView::PluginRequest(x) => vstd::utf8::encode_utf8(x.channel).len() < 0x80000000,
        LoginView::CookieRequest(x) => vstd::utf8::encode_utf8(x).len() < 0x80000000,
    }
}

/// Phase dispatch: the encoded bytes of any packet of this phase and
/// direction carry its own id, and its fields parse back to the packet;
/// `read`'s contract then yields exactly the matching variant, and any
/// foreign id fails with InvalidPacketId.
pub proof fn lemma_login_dispatch(v: LoginView)
    requires
        spec_login_view_wf(v),
    ensures
        match v {
            LoginView::Disconnect(x) => {
                &&& spec_get_var_int(spec_encode_login(v)) == Ok::<(i32, Seq<u8>), PacketError>(
                    (0i32, Disconnect::spec_fields(x)),
                )
                &&& Disconnect::spec_get(Disconnect::spec_fields(x)) == Ok::<
                    (Seq<char>, Seq<u8>),
                    PacketError,
                >((x, Seq::<u8>::empty()))
            },
            LoginView::EncryptionRequest(x) => {
                &&& spec_get_var_int(spec_encode_login(v)) == Ok::<(i32, Seq<u8>), PacketError>(
                    (1i32, EncryptionRequest::spec_fields(x)),
                )
                &&& EncryptionRequest::spec_get(EncryptionRequest::spec_fields(x)) == Ok::<
                    (EncryptionRequestView, Seq<u8>),
                    PacketError,
                >((x, Seq::<u8>::empty()))
            },
            LoginView::LoginSuccess(x) => {
                &&& spec_get_var_int(spec_encode_login(v)) == Ok::<(i32, Seq<u8>), PacketError>(
                    (2i32, LoginSuccess::spec_fields(x)),
                )
                &&& LoginSuccess::spec_get(LoginSuccess::spec_fields(x)) == Ok::<
                    (LoginSuccessView, Seq<u8>),
                    PacketError,
                >((x, Seq::<u8>::empty()))
            },
            LoginView::SetCompression(x) => {
                &&& spec_get_var_int(spec_encode_login(v)) == Ok::<(i32, Seq<u8>), PacketError>(
                    (3i32, SetCompression::spec_fields(x)),
                )
                &&& SetCompression::spec_get(SetCompression::spec_fields(x)) == Ok::<
                    (i32, Seq<u8>),
                    PacketError,
                >((x, Seq::<u8>::empty()))
            },
            LoginView::PluginRequest(x) => {
                &&& spec_get_var_int(spec_encode_login(v)) == Ok::<(i32, Seq<u8>), PacketError>(
                    (4i32, PluginRequest::spec_fields(x)),
                )
                &&& PluginRequest::spec_get(PluginRequest::spec_fields(x)) == Ok::<
                    (PluginRequestView, Seq<u8>),
                    PacketError,
                >((x, Seq::<u8>::empty()))
            },
            LoginView::CookieRequest(x) => {
                &&& spec_get_var_int(spec_encode_login(v)) == Ok::<(i32, Seq<u8>), PacketError>(
                    (5i32, CookieRequest::spec_fields(x)),
                )
                &&& CookieRequest::spec_get(CookieRequest::spec_fields(x)) == Ok::<
                    (Seq<char>, Seq<u8>),
                    PacketError,
                >((x, Seq::<u8>::empty()))
            },
        },
{
    match v {
        LoginView::Disconnect(x) => {
            let fields = Disconnect::spec_fields(x);
            lemma_var_int_round_trip(0i32, fields);
            lemma_disconnect_round_trip(x, Seq::<u8>::empty());
            assert(fields + Seq::<u8>::empty() =~= fields);
        },
        LoginView::EncryptionRequest(x) => {
            let fields = EncryptionRequest::spec_fields(x);
            lemma_var_int_round_trip(1i32, fields);
            lemma_encryption_request_round_trip(x, Seq::<u8>::empty());
            assert(fields + Seq::<u8>::empty() =~= fields);
        },
        LoginView::LoginSuccess(x) => {
            let fields = LoginSuccess::spec_fields(x);
            lemma_var_int_round_trip(2i32, fields);
            lemma_login_success_round_trip(x, Seq::<u8>::empty());
            assert(fields + Seq::<u8>::empty() =~= fields);
        },
        LoginView::SetCompression(x) => {
            let fields = SetCompression::spec_fields(x);
            lemma_var_int_round_trip(3i32, fields);
            lemma_set_compression_round_trip(x, Seq::<u8>::empty());
            assert(fields + Seq::<u8>::empty() =~= fields);
        },
        LoginView::PluginRequest(x) => {
            let fields = PluginRequest::spec_fields(x);
            lemma_var_int_round_trip(4i32, fields);
            lemma_plugin_request_round_trip(x);
        },
        LoginView::CookieRequest(x) => {
            let fields = CookieRequest::spec_fields(x);
            lemma_var_int_round_trip(5i32, fields);
            lemma_cookie_request_round_trip(x, Seq::<u8>::empty());
            assert(fields + Seq::<u8>::empty() =~= fields);
        },
    }
}

} // verus!
