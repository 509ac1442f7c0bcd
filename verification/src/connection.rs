//! Connection-level session state: the optional RSA keys and verify-token of
//! the login handshake, the optional symmetric cipher, and the frame codec.
//!
//! The byte-stream halves live with the caller; this layer owns everything
//! that must be computed exactly: frame assembly, ciphering, the handshake
//! bookkeeping, and the server-id auth hash.

use vstd::prelude::*;
use crate::mc_types::{PacketError, spec_var_bytes, spec_u32_of_i32, convert_var_int};
use crate::encrypt::{
    McCipher, copy_bytes, random_bytes_16, rsa_public_key_from_private, rsa_public_key_to_der,
    rsa_public_key_from_der, encrypt_rsa, decrypt_rsa, sha1_digest, signed_hex,
    spec_encrypt_bytes, spec_decrypt_bytes, spec_sha1, spec_signed_hex, spec_rsa_decrypt,
};
use crate::login;

verus! {

/// A cipher option is well formed when the cipher it may hold is.
pub open spec fn spec_cipher_wf_opt(c: Option<McCipher>) -> bool {
    match c {
        Some(c) => c.wf(),
        None => true,
    }
}

/// Emits the wire bytes of one frame: the VarInt payload length, the
/// payload, and the whole run through the cipher when one is installed.
pub fn frame_encode(cipher: &mut Option<McCipher>, data: &Vec<u8>) -> (r: Vec<u8>)
    requires
        data@.len() < 0x80000000,
        spec_cipher_wf_opt(*old(cipher)),
    ensures
        spec_cipher_wf_opt(*final(cipher)),
        ({
            let plain = spec_var_bytes(data@.len()) + data@;
            match *old(cipher) {
                None => r@ == plain && *final(cipher) is None,
                Some(c) => {
                    let e = spec_encrypt_bytes(c.key@, c.state_en@, plain);
                    &&& r@ == e.0
                    &&& *final(cipher) matches Some(c2) && c2.key@ == c.key@ && c2.state_en@ == e.1
                        && c2.state_de@ == c.state_de@
                },
            }
        }),
{
    let len: usize = data.len();
    let mut out = convert_var_int(len as i32);
    let ghost head = out@;
    let mut i: usize = 0;
    while i < data.len()
        invariant
            i <= data@.len(),
            out@ == head + data@.take(i as int),
        decreases data@.len() - i,
    {
        out.push(data[i]);
        proof {
            assert(head + data@.take(i as int) + seq![data@[i as int]] =~= head + data@.take(
                i as int + 1,
            ));
        }
        i = i + 1;
    }
    proof {
        assert(head + data@.take(data@.len() as int) =~= head + data@);
        assert(spec_u32_of_i32(len as i32) == data@.len());
    }
    match cipher {
        Some(c) => c.encrypt_aes(out),
        None => out,
    }
}

/// Deciphers one length-prefix byte as it is read from the stream; the
/// identity when no cipher is installed.
pub fn frame_decrypt_byte(cipher: &mut Option<McCipher>, b: u8) -> (r: u8)
    requires
        spec_cipher_wf_opt(*old(cipher)),
    ensures
        spec_cipher_wf_opt(*final(cipher)),
        match *old(cipher) {
            None => r == b && *final(cipher) is None,
            Some(c) => {
                let d = spec_decrypt_bytes(c.key@, c.state_de@, seq![b]);
                &&& seq![r] == d.0
                &&& *final(cipher) matches Some(c2) && c2.key@ == c.key@ && c2.state_de@ == d.1
                    && c2.state_en@ == c.state_en@
            },
        },
{
    match cipher {
        Some(c) => {
            let mut buf: Vec<u8> = Vec::new();
            buf.push(b);
            proof {
                assert(buf@ =~= seq![b]);
            }
            let out = c.decrypt_aes(buf);
            proof {
                let k = old(cipher)->Some_0.key@;
                let iv = old(cipher)->Some_0.state_de@;
                assert(seq![b].skip(1) =~= Seq::<u8>::empty());
                assert(spec_decrypt_bytes(
                    k,
                    crate::encrypt::spec_shift_in(iv, b),
                    Seq::<u8>::empty(),
                ).0 =~= Seq::<u8>::empty());
                let d = spec_decrypt_bytes(k, iv, seq![b]);
                assert(d.0 =~= seq![d.0[0]]);
                assert(out@.len() == 1);
                assert(seq![out@[0]] =~= out@);
            }
            out[0]
        },
        None => b,
    }
}

/// Deciphers a frame body read from the stream as one block; the identity
/// when no cipher is installed.
pub fn frame_decrypt_body(cipher: &mut Option<McCipher>, data: Vec<u8>) -> (r: Vec<u8>)
    requires
        spec_cipher_wf_opt(*old(cipher)),
    ensures
        spec_cipher_wf_opt(*final(cipher)),
        match *old(cipher) {
            None => r@ == data@ && *final(cipher) is None,
            Some(c) => {
                let d = spec_decrypt_bytes(c.key@, c.state_de@, data@);
                &&& r@ == d.0
                &&& *final(cipher) matches Some(c2) && c2.key@ == c.key@ && c2.state_de@ == d.1
                    && c2.state_en@ == c.state_en@
            },
        },
{
    match cipher {
        Some(c) => c.decrypt_aes(data),
        None => data,
    }
}

/// Framing round trip over a clear channel: a frame built from any payload
/// parses back to exactly that payload, with nothing left over.
pub proof fn lemma_frame_round_trip(payload: Seq<u8>)
    requires
        payload.len() <= 0x1FFFFF,
    ensures
        crate::mc_types::spec_get_prefixed_bytes(spec_var_bytes(payload.len()) + payload) == Ok::<
            (Seq<u8>, Seq<u8>),
            PacketError,
        >((payload, Seq::<u8>::empty())),
{
    crate::mc_types::lemma_byte_array_round_trip(payload, Seq::<u8>::empty());
    reveal(crate::mc_types::spec_convert_byte_array);
    assert(crate::mc_types::spec_convert_byte_array(payload) + Seq::<u8>::empty()
        =~= spec_var_bytes(payload.len()) + payload);
}

/// Framing round trip over an encrypted channel: the writer enciphers the
/// whole frame; a reader that starts from the same key and window recovers
/// the frame, whether it deciphers the bytes one at a time or in blocks
/// (deciphering is sequential over concatenation), and parsing the frame
/// yields the payload.
pub proof fn lemma_frame_round_trip_encrypted(key: Seq<u8>, iv: Seq<u8>, payload: Seq<u8>)
    requires
        payload.len() <= 0x1FFFFF,
    ensures
        ({
            let frame = spec_var_bytes(payload.len()) + payload;
            let wire = spec_encrypt_bytes(key, iv, frame).0;
            &&& spec_decrypt_bytes(key, iv, wire).0 == frame
            &&& crate::mc_types::spec_get_prefixed_bytes(frame) == Ok::<
                (Seq<u8>, Seq<u8>),
                PacketError,
            >((payload, Seq::<u8>::empty()))
        }),
{
    let frame = spec_var_bytes(payload.len()) + payload;
    crate::encrypt::lemma_cipher_round_trip(key, iv, frame);
    lemma_frame_round_trip(payload);
}

/// Compares two byte vectors for byte-exact equality.
pub fn bytes_equal(a: &Vec<u8>, b: &Vec<u8>) -> (r: bool)
    ensures
        r == (a@ == b@),
{
    if a.len() != b.len() {
        proof {
            assert(a@.len() != b@.len() ==> a@ != b@);
        }
        return false;
    }
    let mut i: usize = 0;
    while i < a.len()
        invariant
            i <= a@.len(),
            a@.len() == b@.len(),
            forall|t: int| 0 <= t < i ==> a@[t] == b@[t],
        decreases a@.len() - i,
    {
        if a[i] != b[i] {
            return false;
        }
        i = i + 1;
    }
    proof {
        assert(a@ =~= b@);
    }
    true
}

/// The cryptographic session state of one connection.
pub struct ProtocolConnection {
    pub rsa_private_key: Option<rsa::RsaPrivateKey>,
    pub rsa_public_key: Option<rsa::RsaPublicKey>,
    pub public_key_der: Option<Vec<u8>>,
    pub aes_cipher: Option<McCipher>,
    pub verify_token: Option<Vec<u8>>,
    pub server_id: String,
}

impl ProtocolConnection {
    /// The held cipher and verify-token are well formed.
    pub open spec fn wf(self) -> bool {
        &&& spec_cipher_wf_opt(self.aes_cipher)
        &&& match self.verify_token {
            Some(t) => t@.len() == 16,
            None => true,
        }
    }

    /// A fresh connection: no keys, no token, no cipher, empty server id.
    pub fn new() -> (r: Self)
        ensures
            r.wf(),
            r.rsa_private_key is None,
            r.rsa_public_key is None,
            r.public_key_der is None,
            r.aes_cipher is None,
            r.verify_token is None,
            r.server_id@ == Seq::<char>::empty(),
    {
        ProtocolConnection {
            rsa_private_key: None,
            rsa_public_key: None,
            public_key_der: None,
            aes_cipher: None,
            verify_token: None,
            server_id: String::new(),
        }
    }

    /// Server role: on a fresh connection, stores the given private key,
    /// derives and stores its public key and DER (succeeding exactly when
    /// the DER encoding does), and samples a 16-byte verify-token; a stored
    /// key pair and token are kept and the argument is dropped.  Builds the
    /// EncryptionRequest carrying the server id, the stored DER, and the
    /// stored token.
    pub fn create_encryption_request(&mut self, private_key: rsa::RsaPrivateKey) -> (r: Result<
        login::clientbound::EncryptionRequest,
        PacketError,
    >)
        requires
            old(self).wf(),
        ensures
            final(self).wf(),
            final(self).server_id == old(self).server_id,
            final(self).aes_cipher == old(self).aes_cipher,
            old(self).rsa_private_key is Some ==> *final(self) == *old(self),
            old(self).rsa_private_key is Some && old(self).rsa_public_key is Some && old(
                self,
            ).public_key_der is Some && old(self).verify_token is Some ==> r is Ok,
            old(self).rsa_private_key is None ==> (r is Ok <==> crate::encrypt::spec_rsa_der_of_private(
                private_key,
            ) is Ok),
            old(self).rsa_private_key is None && r is Ok ==> ({
                &&& final(self).rsa_private_key == Some(private_key)
                &&& final(self).rsa_public_key matches Some(k)
                    && crate::encrypt::spec_rsa_der_of_public(k)
                    == crate::encrypt::spec_rsa_der_of_private(private_key)
                &&& final(self).public_key_der matches Some(d) && d@
                    == crate::encrypt::spec_rsa_der_of_private(private_key)->Ok_0
            }),
            match r {
                Ok(req) => {
                    &&& final(self).verify_token matches Some(t) && t@ == req.verify_token@ && t@.len() == 16
                    &&& final(self).public_key_der matches Some(d) && d@ == req.public_key@
                    &&& final(self).rsa_private_key is Some
                    &&& final(self).rsa_public_key is Some
                    &&& req.server_id@ == old(self).server_id@
                    &&& req.should_authenticate == true
                },
                Err(e) => e == PacketError::EncryptionError && *final(self) == *old(self),
            },
    {
        if self.rsa_private_key.is_none() {
            let public_key = rsa_public_key_from_private(&private_key);
            let der = match rsa_public_key_to_der(&public_key) {
                Ok(d) => d,
                Err(_) => {
                    return Err(PacketError::EncryptionError);
                },
            };
            self.rsa_private_key = Some(private_key);
            self.rsa_public_key = Some(public_key);
            self.public_key_der = Some(der);
            self.verify_token = Some(random_bytes_16());
        }
        match (&self.rsa_public_key, &self.public_key_der, &self.verify_token) {
            (Some(k), Some(der), Some(token)) => Ok(
                login::clientbound::EncryptionRequest {
                    server_id: self.server_id.clone(),
                    public_key: copy_bytes(der),
                    verify_token: copy_bytes(token),
                    should_authenticate: true,
                },
            ),
            _ => Err(PacketError::EncryptionError),
        }
    }

    /// Client role: parses the server's public key, samples a session
    /// cipher, and answers with the key and the echoed verify-token, both
    /// RSA-encrypted.  Fails with EncryptionError when the DER does not
    /// parse, the token is shorter than 16 bytes, or an RSA operation fails;
    /// the state is then unchanged.
    pub fn handle_encryption_request(
        &mut self,
        request: login::clientbound::EncryptionRequest,
    ) -> (r: Result<login::serverbound::EncryptionResponse, PacketError>)
        requires
            old(self).wf(),
        ensures
            final(self).wf(),
            !crate::encrypt::spec_der_ok(request.public_key@) ==> r is Err,
            request.verify_token@.len() < 16 ==> r is Err,
            match r {
                Ok(resp) => {
                    &&& crate::encrypt::spec_der_ok(request.public_key@)
                    &&& request.verify_token@.len() >= 16
                    &&& final(self).server_id@ == request.server_id@
                    &&& final(self).public_key_der matches Some(d) && d@ == request.public_key@
                    &&& final(self).rsa_public_key is Some
                    &&& final(self).aes_cipher matches Some(c) && c.state_en@ == c.key@
                        && c.state_de@ == c.key@
                    &&& final(self).rsa_private_key == old(self).rsa_private_key
                    &&& final(self).verify_token == old(self).verify_token
                },
                Err(e) => e == PacketError::EncryptionError && *final(self) == *old(self),
            },
    {
        let public_key = match rsa_public_key_from_der(&request.public_key) {
            Ok(k) => k,
            Err(_) => {
                return Err(PacketError::EncryptionError);
            },
        };
        if request.verify_token.len() < 16 {
            return Err(PacketError::EncryptionError);
        }
        let cipher = McCipher::create();
        let shared_secret = match cipher.get_encrypted_key(&public_key) {
            Ok(s) => s,
            Err(_) => {
                return Err(PacketError::EncryptionError);
            },
        };
        let mut token16: Vec<u8> = Vec::new();
        let mut i: usize = 0;
        while i < 16
            invariant
                i <= 16,
                request.verify_token@.len() >= 16,
                token16@ == request.verify_token@.take(i as int),
            decreases 16 - i,
        {
            token16.push(request.verify_token[i]);
            proof {
                assert(request.verify_token@.take(i as int).push(request.verify_token@[i as int])
                    =~= request.verify_token@.take(i as int + 1));
            }
            i = i + 1;
        }
        let verify_token = match encrypt_rsa(&public_key, &token16) {
            Ok(t) => t,
            Err(_) => {
                return Err(PacketError::EncryptionError);
            },
        };
        self.server_id = request.server_id;
        self.rsa_public_key = Some(public_key);
        self.public_key_der = Some(request.public_key);
        self.aes_cipher = Some(cipher);
        Ok(login::serverbound::EncryptionResponse { shared_secret, verify_token })
    }

    /// Server role: decrypts the echoed verify-token, compares it byte-exact
    /// to the stored one, and on success installs the cipher carried by the
    /// RSA-encrypted shared secret.  With a stored token and private key it
    /// succeeds exactly when the decrypted echo equals the token and the
    /// decrypted shared secret holds at least 16 bytes, and the installed
    /// key is the first 16 of them; it fails with EncryptionError otherwise,
    /// leaving the state unchanged.
    pub fn handle_encryption_response(
        &mut self,
        response: login::serverbound::EncryptionResponse,
    ) -> (r: Result<(), PacketError>)
        requires
            old(self).wf(),
        ensures
            final(self).wf(),
            old(self).verify_token is None || old(self).rsa_private_key is None ==> r is Err,
            ({
                let key = old(self).rsa_private_key->Some_0;
                let token_ok = old(self).verify_token is Some && spec_rsa_decrypt(
                    key,
                    response.verify_token@,
                ) == Ok::<Seq<u8>, ()>(old(self).verify_token->Some_0@);
                let secret = spec_rsa_decrypt(key, response.shared_secret@);
                let secret_ok = secret matches Ok(p) && p.len() >= 16;
                match r {
                    Ok(u) => {
                        &&& old(self).verify_token is Some && old(self).rsa_private_key is Some
                        &&& token_ok
                        &&& secret_ok
                        &&& final(self).aes_cipher matches Some(c) && c.key@
                            == secret->Ok_0.take(16) && c.state_en@ == c.key@ && c.state_de@
                            == c.key@
                        &&& final(self).rsa_private_key == old(self).rsa_private_key
                        &&& final(self).rsa_public_key == old(self).rsa_public_key
                        &&& final(self).public_key_der == old(self).public_key_der
                        &&& final(self).verify_token == old(self).verify_token
                        &&& final(self).server_id == old(self).server_id
                    },
                    Err(e) => {
                        &&& e == PacketError::EncryptionError
                        &&& *final(self) == *old(self)
                        &&& old(self).verify_token is Some && old(self).rsa_private_key is Some
                            ==> !(token_ok && secret_ok)
                    },
                }
            }),
    {
        let token = match &self.verify_token {
            Some(t) => t,
            None => {
                return Err(PacketError::EncryptionError);
            },
        };
        let private_key = match &self.rsa_private_key {
            Some(k) => k,
            None => {
                return Err(PacketError::EncryptionError);
            },
        };
        let decrypted = match decrypt_rsa(private_key, &response.verify_token) {
            Ok(d) => d,
            Err(_) => {
                return Err(PacketError::EncryptionError);
            },
        };
        if !bytes_equal(&decrypted, token) {
            return Err(PacketError::EncryptionError);
        }
        let cipher = match McCipher::create_with_encrypted_key(
            private_key,
            &response.shared_secret,
        ) {
            Ok(c) => c,
            Err(_) => {
                return Err(PacketError::EncryptionError);
            },
        };
        self.aes_cipher = Some(cipher);
        Ok(())
    }

    /// The server-id auth hash: SHA-1 over the server id's bytes, the AES
    /// key, and the public key DER, read as a signed big-endian integer and
    /// written in lowercase hex.  Needs an installed cipher and a stored
    /// public key DER.
    pub fn server_id_hash(&self) -> (r: Result<String, PacketError>)
        requires
            self.wf(),
        ensures
            match r {
                Ok(h) => {
                    &&& self.aes_cipher matches Some(c) && self.public_key_der matches Some(d)
                        && h@ == spec_signed_hex(
                        spec_sha1(vstd::utf8::encode_utf8(self.server_id@) + c.key@ + d@),
                    )
                },
                Err(e) => e == PacketError::EncryptionError && (self.aes_cipher is None
                    || self.public_key_der is None),
            },
    {
        let cipher = match &self.aes_cipher {
            Some(c) => c,
            None => {
                return Err(PacketError::EncryptionError);
            },
        };
        let der = match &self.public_key_der {
            Some(d) => d,
            None => {
                return Err(PacketError::EncryptionError);
            },
        };
        let id_bytes = self.server_id.as_str().as_bytes();
        let mut hash_data: Vec<u8> = Vec::new();
        let mut i: usize = 0;
        while i < id_bytes.len()
            invariant
                i <= id_bytes@.len(),
                id_bytes@ == vstd::utf8::encode_utf8(self.server_id@),
                hash_data@ == id_bytes@.take(i as int),
            decreases id_bytes@.len() - i,
        {
            hash_data.push(id_bytes[i]);
            proof {
                assert(id_bytes@.take(i as int).push(id_bytes@[i as int]) =~= id_bytes@.take(
                    i as int + 1,
                ));
            }
            i = i + 1;
        }
        proof {
            assert(id_bytes@.take(id_bytes@.len() as int) =~= id_bytes@);
        }
        let mut key_part = copy_bytes(&cipher.key);
        hash_data.append(&mut key_part);
        let mut der_part = copy_bytes(der);
        hash_data.append(&mut der_part);
        proof {
            assert(hash_data@ == vstd::utf8::encode_utf8(self.server_id@)
                + self.aes_cipher->Some_0.key@ + self.public_key_der->Some_0@);
        }
        let digest = sha1_digest(&hash_data);
        Ok(signed_hex(&digest))
    }

    /// Splits off independent write and read handles, each carrying a copy
    /// of the current cipher state: the key is shared, the IV windows evolve
    /// separately with the bytes each half observes.
    pub fn split_conn(&self) -> (r: (WriteHaftProtocolConnection, ReadHaftProtocolConnection))
        requires
            self.wf(),
        ensures
            r.0.wf(),
            r.1.wf(),
            match self.aes_cipher {
                None => r.0.aes_cipher is None && r.1.aes_cipher is None,
                Some(c) => {
                    &&& r.0.aes_cipher matches Some(cw) && cw.key@ == c.key@ && cw.state_en@
                        == c.state_en@ && cw.state_de@ == c.state_de@
                    &&& r.1.aes_cipher matches Some(cr) && cr.key@ == c.key@ && cr.state_en@
                        == c.state_en@ && cr.state_de@ == c.state_de@
                },
            },
    {
        let write_cipher = match &self.aes_cipher {
            Some(c) => Some(c.duplicate()),
            None => None,
        };
        let read_cipher = match &self.aes_cipher {
            Some(c) => Some(c.duplicate()),
            None => None,
        };
        (
            WriteHaftProtocolConnection { aes_cipher: write_cipher },
            ReadHaftProtocolConnection { aes_cipher: read_cipher },
        )
    }

    /// The frame encoder at the connection level.
    pub fn encode_frame(&mut self, data: &Vec<u8>) -> (r: Vec<u8>)
        requires
            data@.len() < 0x80000000,
            old(self).wf(),
        ensures
            final(self).wf(),
            final(self).rsa_private_key == old(self).rsa_private_key,
            final(self).rsa_public_key == old(self).rsa_public_key,
            final(self).public_key_der == old(self).public_key_der,
            final(self).verify_token == old(self).verify_token,
            final(self).server_id == old(self).server_id,
            ({
                let plain = spec_var_bytes(data@.len()) + data@;
                match old(self).aes_cipher {
                    None => r@ == plain && final(self).aes_cipher is None,
                    Some(c) => {
                        let e = spec_encrypt_bytes(c.key@, c.state_en@, plain);
                        &&& r@ == e.0
                        &&& final(self).aes_cipher matches Some(c2) && c2.key@ == c.key@
                            && c2.state_en@ == e.1 && c2.state_de@ == c.state_de@
                    },
                }
            }),
    {
        frame_encode(&mut self.aes_cipher, data)
    }

    /// Deciphers one length-prefix byte.
    pub fn decrypt_frame_byte(&mut self, b: u8) -> (r: u8)
        requires
            old(self).wf(),
        ensures
            final(self).wf(),
            final(self).rsa_private_key == old(self).rsa_private_key,
            final(self).rsa_public_key == old(self).rsa_public_key,
            final(self).public_key_der == old(self).public_key_der,
            final(self).verify_token == old(self).verify_token,
            final(self).server_id == old(self).server_id,
            match old(self).aes_cipher {
                None => r == b && final(self).aes_cipher is None,
                Some(c) => {
                    let d = spec_decrypt_bytes(c.key@, c.state_de@, seq![b]);
                    &&& seq![r] == d.0
                    &&& final(self).aes_cipher matches Some(c2) && c2.key@ == c.key@
                        && c2.state_de@ == d.1 && c2.state_en@ == c.state_en@
                },
            },
    {
        frame_decrypt_byte(&mut self.aes_cipher, b)
    }

    /// Deciphers a frame body read as one block.
    pub fn decrypt_frame_body(&mut self, data: Vec<u8>) -> (r: Vec<u8>)
        requires
            old(self).wf(),
        ensures
            final(self).wf(),
            final(self).rsa_private_key == old(self).rsa_private_key,
            final(self).rsa_public_key == old(self).rsa_public_key,
            final(self).public_key_der == old(self).public_key_der,
            final(self).verify_token == old(self).verify_token,
            final(self).server_id == old(self).server_id,
            match old(self).aes_cipher {
                None => r@ == data@ && final(self).aes_cipher is None,
                Some(c) => {
                    let d = spec_decrypt_bytes(c.key@, c.state_de@, data@);
                    &&& r@ == d.0
                    &&& final(self).aes_cipher matches Some(c2) && c2.key@ == c.key@
                        && c2.state_de@ == d.1 && c2.state_en@ == c.state_en@
                },
            },
    {
        frame_decrypt_body(&mut self.aes_cipher, data)
    }
}

/// The write-only handle of a split connection.
pub struct WriteHaftProtocolConnection {
    pub aes_cipher: Option<McCipher>,
}

impl WriteHaftProtocolConnection {
    /// The held cipher is well formed.
    pub open spec fn wf(self) -> bool {
        spec_cipher_wf_opt(self.aes_cipher)
    }

    /// A fresh pre-cipher write handle.
    pub fn new() -> (r: Self)
        ensures
            r.wf(),
            r.aes_cipher is None,
    {
        WriteHaftProtocolConnection { aes_cipher: None }
    }

    /// The frame encoder of the write half.
    pub fn encode_frame(&mut self, data: &Vec<u8>) -> (r: Vec<u8>)
        requires
            data@.len() < 0x80000000,
            old(self).wf(),
        ensures
            final(self).wf(),
            ({
                let plain = spec_var_bytes(data@.len()) + data@;
                match old(self).aes_cipher {
                    None => r@ == plain && final(self).aes_cipher is None,
                    Some(c) => {
                        let e = spec_encrypt_bytes(c.key@, c.state_en@, plain);
                        &&& r@ == e.0
                        &&& final(self).aes_cipher matches Some(c2) && c2.key@ == c.key@
                            && c2.state_en@ == e.1 && c2.state_de@ == c.state_de@
                    },
                }
            }),
    {
        frame_encode(&mut self.aes_cipher, data)
    }
}

/// The read-only handle of a split connection.
pub struct ReadHaftProtocolConnection {
    pub aes_cipher: Option<McCipher>,
}

impl ReadHaftProtocolConnection {
    /// The held cipher is well formed.
    pub open spec fn wf(self) -> bool {
        spec_cipher_wf_opt(self.aes_cipher)
    }

    /// A fresh pre-cipher read handle.
    pub fn new() -> (r: Self)
        ensures
            r.wf(),
            r.aes_cipher is None,
    {
        ReadHaftProtocolConnection { aes_cipher: None }
    }

    /// Deciphers one length-prefix byte.
    pub fn decrypt_frame_byte(&mut self, b: u8) -> (r: u8)
        requires
            old(self).wf(),
        ensures
            final(self).wf(),
            match old(self).aes_cipher {
                None => r == b && final(self).aes_cipher is None,
                Some(c) => {
                    let d = spec_decrypt_bytes(c.key@, c.state_de@, seq![b]);
                    &&& seq![r] == d.0
                    &&& final(self).aes_cipher matches Some(c2) && c2.key@ == c.key@
                        && c2.state_de@ == d.1 && c2.state_en@ == c.state_en@
                },
            },
    {
        frame_decrypt_byte(&mut self.aes_cipher, b)
    }

    /// Deciphers a frame body read as one block.
    pub fn decrypt_frame_body(&mut self, data: Vec<u8>) -> (r: Vec<u8>)
        requires
            old(self).wf(),
        ensures
            final(self).wf(),
            match old(self).aes_cipher {
                None => r@ == data@ && final(self).aes_cipher is None,
                Some(c) => {
                    let d = spec_decrypt_bytes(c.key@, c.state_de@, data@);
                    &&& r@ == d.0
                    &&& final(self).aes_cipher matches Some(c2) && c2.key@ == c.key@
                        && c2.state_de@ == d.1 && c2.state_en@ == c.state_en@
                },
            },
    {
        frame_decrypt_body(&mut self.aes_cipher, data)
    }
}

} // verus!
