//! The session ciphers: AES-128/CFB8 applied byte by byte in both
//! directions, and the RSA helpers of the login handshake.
//!
//! The CFB8 keystream byte is always the head of the AES **encryption** of
//! the IV window, for decryption too; both windows shift in the ciphertext
//! byte.  The IV is initialised to the key itself.

use vstd::prelude::*;
use crate::mc_types::{PacketError, spec_be_val};
use vstd::arithmetic::power::pow;
use aes::cipher::{BlockCipherEncrypt, KeyInit};
use rsa::pkcs8::{EncodePublicKey, DecodePublicKey};
use sha1::Digest;

verus! {

#[verifier::external_type_specification]
#[verifier::external_body]
pub struct ExRsaPrivateKey(rsa::RsaPrivateKey);

#[verifier::external_type_specification]
#[verifier::external_body]
pub struct ExRsaPublicKey(rsa::RsaPublicKey);

/// What AES-128 block encryption returns for a 16-byte key and one 16-byte
/// block.
pub uninterp spec fn spec_aes128_block(key: Seq<u8>, block: Seq<u8>) -> Seq<u8>;

/// Relies on aes::Aes128 through cipher::BlockCipherEncrypt::encrypt_block:
/// one block encrypted under the key, a 16-byte function of key and block
/// alone.
#[verifier::external_body]
fn aes128_encrypt_block(key: &Vec<u8>, block: &Vec<u8>) -> (r: Vec<u8>)
    requires
        key@.len() == 16,
        block@.len() == 16,
    ensures
        r@ == spec_aes128_block(key@, block@),
        r@.len() == 16,
{
    let key_arr = aes::cipher::array::Array::try_from(key.as_slice()).unwrap();
    let cipher = aes::Aes128::new(&key_arr);
    let mut blk: aes::Block = aes::cipher::array::Array::try_from(block.as_slice()).unwrap();
    cipher.encrypt_block(&mut blk);
    blk.as_slice().to_vec()
}

/// The IV window shifted left one byte, with `b` as the new low byte.
pub open spec fn spec_shift_in(iv: Seq<u8>, b: u8) -> Seq<u8> {
    iv.skip(1).push(b)
}

/// CFB8 encryption of a byte sequence: the ciphertext and the final IV
/// window.  Each plaintext byte is XORed with the head of the AES encryption
/// of the window; the window shifts in the ciphertext byte.
pub open spec fn spec_encrypt_bytes(key: Seq<u8>, iv: Seq<u8>, data: Seq<u8>) -> (Seq<u8>, Seq<u8>)
    decreases data.len(),
{
    if data.len() == 0 {
        (seq![], iv)
    } else {
        let c = data[0] ^ spec_aes128_block(key, iv)[0];
        let rest = spec_encrypt_bytes(key, spec_shift_in(iv, c), data.skip(1));
        (seq![c] + rest.0, rest.1)
    }
}

/// CFB8 decryption: each ciphertext byte is XORed with the same keystream
/// byte; the window shifts in the ciphertext byte, i.e. the input.
pub open spec fn spec_decrypt_bytes(key: Seq<u8>, iv: Seq<u8>, data: Seq<u8>) -> (Seq<u8>, Seq<u8>)
    decreases data.len(),
{
    if data.len() == 0 {
        (seq![], iv)
    } else {
        let p = data[0] ^ spec_aes128_block(key, iv)[0];
        let rest = spec_decrypt_bytes(key, spec_shift_in(iv, data[0]), data.skip(1));
        (seq![p] + rest.0, rest.1)
    }
}

/// Decrypting what was encrypted under the same key and starting window
/// yields the plaintext, and both windows evolve identically.  This is the
/// cipher round trip; with `iv == key` it is also the law for a separately
/// constructed decryptor starting from position 0.
pub proof fn lemma_cipher_round_trip(key: Seq<u8>, iv: Seq<u8>, data: Seq<u8>)
    ensures
        spec_decrypt_bytes(key, iv, spec_encrypt_bytes(key, iv, data).0).0 == data,
        spec_decrypt_bytes(key, iv, spec_encrypt_bytes(key, iv, data).0).1 == spec_encrypt_bytes(
            key,
            iv,
            data,
        ).1,
    decreases data.len(),
{
    if data.len() > 0 {
        let k0 = spec_aes128_block(key, iv)[0];
        let d0 = data[0];
        let c = data[0] ^ k0;
        assert((d0 ^ k0) ^ k0 == d0) by (bit_vector);
        let enc = spec_encrypt_bytes(key, iv, data);
        let iv2 = spec_shift_in(iv, c);
        lemma_cipher_round_trip(key, iv2, data.skip(1));
        assert(enc.0.skip(1) =~= spec_encrypt_bytes(key, iv2, data.skip(1)).0);
        assert(enc.0[0] == c);
        assert(spec_decrypt_bytes(key, iv, enc.0).0 =~= data);
    } else {
        assert(spec_decrypt_bytes(key, iv, spec_encrypt_bytes(key, iv, data).0).0 =~= data);
    }
}

/// Encryption is sequential over concatenation: ciphering `a + b` equals
/// ciphering `a`, then `b` from the window `a` left behind.
pub proof fn lemma_encrypt_append(key: Seq<u8>, iv: Seq<u8>, a: Seq<u8>, b: Seq<u8>)
    ensures
        spec_encrypt_bytes(key, iv, a + b).0 == spec_encrypt_bytes(key, iv, a).0
            + spec_encrypt_bytes(key, spec_encrypt_bytes(key, iv, a).1, b).0,
        spec_encrypt_bytes(key, iv, a + b).1 == spec_encrypt_bytes(
            key,
            spec_encrypt_bytes(key, iv, a).1,
            b,
        ).1,
    decreases a.len(),
{
    if a.len() == 0 {
        assert(a + b =~= b);
        assert(spec_encrypt_bytes(key, iv, a).0 + spec_encrypt_bytes(key, iv, b).0
            =~= spec_encrypt_bytes(key, iv, b).0);
    } else {
        let c = a[0] ^ spec_aes128_block(key, iv)[0];
        let iv2 = spec_shift_in(iv, c);
        assert((a + b).skip(1) =~= a.skip(1) + b);
        lemma_encrypt_append(key, iv2, a.skip(1), b);
        let tail = spec_encrypt_bytes(key, iv2, a.skip(1) + b).0;
        assert(seq![c] + tail =~= spec_encrypt_bytes(key, iv, a + b).0);
        assert(seq![c] + (spec_encrypt_bytes(key, iv2, a.skip(1)).0 + spec_encrypt_bytes(
            key,
            spec_encrypt_bytes(key, iv2, a.skip(1)).1,
            b,
        ).0) =~= (seq![c] + spec_encrypt_bytes(key, iv2, a.skip(1)).0) + spec_encrypt_bytes(
            key,
            spec_encrypt_bytes(key, iv2, a.skip(1)).1,
            b,
        ).0);
    }
}

/// Decryption is sequential over concatenation in the same way: bytes may be
/// deciphered one at a time or in one block.
pub proof fn lemma_decrypt_append(key: Seq<u8>, iv: Seq<u8>, a: Seq<u8>, b: Seq<u8>)
    ensures
        spec_decrypt_bytes(key, iv, a + b).0 == spec_decrypt_bytes(key, iv, a).0
            + spec_decrypt_bytes(key, spec_decrypt_bytes(key, iv, a).1, b).0,
        spec_decrypt_bytes(key, iv, a + b).1 == spec_decrypt_bytes(
            key,
            spec_decrypt_bytes(key, iv, a).1,
            b,
        ).1,
    decreases a.len(),
{
    if a.len() == 0 {
        assert(a + b =~= b);
        assert(spec_decrypt_bytes(key, iv, a).0 + spec_decrypt_bytes(key, iv, b).0
            =~= spec_decrypt_bytes(key, iv, b).0);
    } else {
        let p = a[0] ^ spec_aes128_block(key, iv)[0];
        let iv2 = spec_shift_in(iv, a[0]);
        assert((a + b).skip(1) =~= a.skip(1) + b);
        lemma_decrypt_append(key, iv2, a.skip(1), b);
        let tail = spec_decrypt_bytes(key, iv2, a.skip(1) + b).0;
        assert(seq![p] + tail =~= spec_decrypt_bytes(key, iv, a + b).0);
        assert(seq![p] + (spec_decrypt_bytes(key, iv2, a.skip(1)).0 + spec_decrypt_bytes(
            key,
            spec_decrypt_bytes(key, iv2, a.skip(1)).1,
            b,
        ).0) =~= (seq![p] + spec_decrypt_bytes(key, iv2, a.skip(1)).0) + spec_decrypt_bytes(
            key,
            spec_decrypt_bytes(key, iv2, a.skip(1)).1,
            b,
        ).0);
    }
}

/// Copies a byte vector.
pub fn copy_bytes(v: &Vec<u8>) -> (r: Vec<u8>)
    ensures
        r@ == v@,
{
    let mut out: Vec<u8> = Vec::new();
    let mut i: usize = 0;
    while i < v.len()
        invariant
            i <= v@.len(),
            out@ == v@.take(i as int),
        decreases v@.len() - i,
    {
        out.push(v[i]);
        proof {
            assert(v@.take(i as int).push(v@[i as int]) =~= v@.take(i as int + 1));
        }
        i = i + 1;
    }
    proof {
        assert(v@.take(v@.len() as int) =~= v@);
    }
    out
}

/// The symmetric session cipher: one AES-128 key and two independent CFB8
/// IV windows, one per direction.
pub struct McCipher {
    pub key: Vec<u8>,
    pub state_en: Vec<u8>,
    pub state_de: Vec<u8>,
}

impl McCipher {
    /// The key and both windows are 16 bytes.
    pub open spec fn wf(self) -> bool {
        self.key@.len() == 16 && self.state_en@.len() == 16 && self.state_de@.len() == 16
    }

    /// Builds a cipher over a given key; both IV windows start equal to the
    /// key.
    pub fn create_with_key(key: Vec<u8>) -> (r: Self)
        requires
            key@.len() == 16,
        ensures
            r.wf(),
            r.key@ == key@,
            r.state_en@ == key@,
            r.state_de@ == key@,
    {
        let state_en = copy_bytes(&key);
        let state_de = copy_bytes(&key);
        McCipher { key, state_en, state_de }
    }

    /// Builds a cipher over a freshly sampled random 16-byte key.
    pub fn create() -> (r: Self)
        ensures
            r.wf(),
            r.state_en@ == r.key@,
            r.state_de@ == r.key@,
    {
        Self::create_with_key(random_bytes_16())
    }

    /// An independent copy sharing the key and the current windows.
    pub fn duplicate(&self) -> (r: Self)
        ensures
            r.key@ == self.key@,
            r.state_en@ == self.state_en@,
            r.state_de@ == self.state_de@,
    {
        McCipher {
            key: copy_bytes(&self.key),
            state_en: copy_bytes(&self.state_en),
            state_de: copy_bytes(&self.state_de),
        }
    }

    /// The cipher's key, RSA-encrypted under the peer's public key: the
    /// shared secret of an EncryptionResponse.
    pub fn get_encrypted_key(&self, public_key: &rsa::RsaPublicKey) -> (r: Result<
        Vec<u8>,
        PacketError,
    >)
        requires
            self.wf(),
        ensures
            r matches Err(e) ==> e == PacketError::EncryptionError,
    {
        encrypt_rsa(public_key, &self.key)
    }

    /// Builds a cipher from an RSA-encrypted shared secret; the first 16
    /// decrypted bytes are the key.  Succeeds exactly when the RSA
    /// decryption succeeds and yields at least 16 bytes, and fails with
    /// EncryptionError otherwise.
    pub fn create_with_encrypted_key(private_key: &rsa::RsaPrivateKey, data: &Vec<u8>) -> (r:
        Result<Self, PacketError>)
        ensures
            ({
                let d = spec_rsa_decrypt(*private_key, data@);
                match r {
                    Ok(c) => {
                        &&& d matches Ok(p) && p.len() >= 16 && c.key@ == p.take(16)
                        &&& c.wf()
                        &&& c.state_en@ == c.key@
                        &&& c.state_de@ == c.key@
                    },
                    Err(e) => e == PacketError::EncryptionError && (d is Err || d->Ok_0.len()
                        < 16),
                }
            }),
    {
        let decrypted = match decrypt_rsa(private_key, data) {
            Ok(d) => d,
            Err(_) => {
                return Err(PacketError::EncryptionError);
            },
        };
        if decrypted.len() < 16 {
            return Err(PacketError::EncryptionError);
        }
        let mut key: Vec<u8> = Vec::new();
        let mut i: usize = 0;
        while i < 16
            invariant
                i <= 16,
                decrypted@.len() >= 16,
                key@ == decrypted@.take(i as int),
            decreases 16 - i,
        {
            key.push(decrypted[i]);
            proof {
                assert(decrypted@.take(i as int).push(decrypted@[i as int]) =~= decrypted@.take(
                    i as int + 1,
                ));
            }
            i = i + 1;
        }
        Ok(Self::create_with_key(key))
    }

    /// Encrypts a byte sequence in place order, advancing the encryption
    /// window; the key and the decryption window are untouched.
    pub fn encrypt_aes(&mut self, data: Vec<u8>) -> (r: Vec<u8>)
        requires
            old(self).wf(),
        ensures
            r@ == spec_encrypt_bytes(old(self).key@, old(self).state_en@, data@).0,
            final(self).state_en@ == spec_encrypt_bytes(
                old(self).key@,
                old(self).state_en@,
                data@,
            ).1,
            final(self).key@ == old(self).key@,
            final(self).state_de@ == old(self).state_de@,
            final(self).wf(),
    {
        let ghost key = self.key@;
        let ghost iv0 = self.state_en@;
        let mut out: Vec<u8> = Vec::new();
        let mut i: usize = 0;
        proof {
            assert(data@.skip(0) =~= data@);
            assert(Seq::<u8>::empty() + spec_encrypt_bytes(key, iv0, data@).0
                =~= spec_encrypt_bytes(key, iv0, data@).0);
        }
        while i < data.len()
            invariant
                i <= data@.len(),
                self.key@ == key,
                self.key@.len() == 16,
                self.state_en@.len() == 16,
                self.state_de@ == old(self).state_de@,
                spec_encrypt_bytes(key, iv0, data@).0 == out@ + spec_encrypt_bytes(
                    key,
                    self.state_en@,
                    data@.skip(i as int),
                ).0,
                spec_encrypt_bytes(key, iv0, data@).1 == spec_encrypt_bytes(
                    key,
                    self.state_en@,
                    data@.skip(i as int),
                ).1,
            decreases data@.len() - i,
        {
            let ghost prev_out = out@;
            let ghost iv = self.state_en@;
            let block = aes128_encrypt_block(&self.key, &self.state_en);
            let c: u8 = data[i] ^ block[0];
            out.push(c);
            self.state_en.remove(0);
            self.state_en.push(c);
            proof {
                assert(data@.skip(i as int)[0] == data@[i as int]);
                assert(data@.skip(i as int).skip(1) =~= data@.skip(i as int + 1));
                assert(self.state_en@ =~= spec_shift_in(iv, c));
                assert(prev_out + (seq![c] + spec_encrypt_bytes(
                    key,
                    spec_shift_in(iv, c),
                    data@.skip(i as int + 1),
                ).0) =~= out@ + spec_encrypt_bytes(
                    key,
                    spec_shift_in(iv, c),
                    data@.skip(i as int + 1),
                ).0);
            }
            i = i + 1;
        }
        proof {
            assert(data@.skip(data@.len() as int) =~= Seq::<u8>::empty());
            assert(out@ + Seq::<u8>::empty() =~= out@);
        }
        out
    }

    /// Decrypts a byte sequence in order, advancing the decryption window;
    /// the window shifts in the ciphertext bytes, i.e. the input.
    pub fn decrypt_aes(&mut self, data: Vec<u8>) -> (r: Vec<u8>)
        requires
            old(self).wf(),
        ensures
            r@ == spec_decrypt_bytes(old(self).key@, old(self).state_de@, data@).0,
            final(self).state_de@ == spec_decrypt_bytes(
                old(self).key@,
                old(self).state_de@,
                data@,
            ).1,
            final(self).key@ == old(self).key@,
            final(self).state_en@ == old(self).state_en@,
            final(self).wf(),
    {
        let ghost key = self.key@;
        let ghost iv0 = self.state_de@;
        let mut out: Vec<u8> = Vec::new();
        let mut i: usize = 0;
        proof {
            assert(data@.skip(0) =~= data@);
            assert(Seq::<u8>::empty() + spec_decrypt_bytes(key, iv0, data@).0
                =~= spec_decrypt_bytes(key, iv0, data@).0);
        }
        while i < data.len()
            invariant
                i <= data@.len(),
                self.key@ == key,
                self.key@.len() == 16,
                self.state_de@.len() == 16,
                self.state_en@ == old(self).state_en@,
                spec_decrypt_bytes(key, iv0, data@).0 == out@ + spec_decrypt_bytes(
                    key,
                    self.state_de@,
                    data@.skip(i as int),
                ).0,
                spec_decrypt_bytes(key, iv0, data@).1 == spec_decrypt_bytes(
                    key,
                    self.state_de@,
                    data@.skip(i as int),
                ).1,
            decreases data@.len() - i,
        {
            let ghost prev_out = out@;
            let ghost iv = self.state_de@;
            let block = aes128_encrypt_block(&self.key, &self.state_de);
            let cin: u8 = data[i];
            let p: u8 = cin ^ block[0];
            out.push(p);
            self.state_de.remove(0);
            self.state_de.push(cin);
            proof {
                assert(data@.skip(i as int)[0] == data@[i as int]);
                assert(data@.skip(i as int).skip(1) =~= data@.skip(i as int + 1));
                assert(self.state_de@ =~= spec_shift_in(iv, cin));
                assert(prev_out + (seq![p] + spec_decrypt_bytes(
                    key,
                    spec_shift_in(iv, cin),
                    data@.skip(i as int + 1),
                ).0) =~= out@ + spec_decrypt_bytes(
                    key,
                    spec_shift_in(iv, cin),
                    data@.skip(i as int + 1),
                ).0);
            }
            i = i + 1;
        }
        proof {
            assert(data@.skip(data@.len() as int) =~= Seq::<u8>::empty());
            assert(out@ + Seq::<u8>::empty() =~= out@);
        }
        out
    }
}

/// Relies on rand::random: 16 bytes from the thread-local OS-seeded
/// generator; nothing is promised of their values.
#[verifier::external_body]
pub fn random_bytes_16() -> (r: Vec<u8>)
    ensures
        r@.len() == 16,
{
    let bytes: [u8; 16] = rand::random();
    bytes.to_vec()
}

/// Relies on rsa::RsaPrivateKey::new: a fresh 2048-bit private key from the
/// OS random source; nothing is promised of its value.
#[verifier::external_body]
pub fn generate_rsa_keys() -> (r: Result<rsa::RsaPrivateKey, PacketError>)
    ensures
        r matches Err(e) ==> e == PacketError::EncryptionError,
{
    let mut rng = rand::rngs::OsRng;
    match rsa::RsaPrivateKey::new(&mut rng, 2048) {
        Ok(k) => Ok(k),
        Err(_) => Err(PacketError::EncryptionError),
    }
}

/// The X.509 SubjectPublicKeyInfo DER encoding of an RSA public key, or an
/// encoding error: a function of the key alone.
pub uninterp spec fn spec_rsa_der_of_public(k: rsa::RsaPublicKey) -> Result<Seq<u8>, ()>;

/// The DER encoding of the public half of an RSA private key: deriving the
/// public key and DER-encoding it are both deterministic, so this too is a
/// function of the key alone.
pub uninterp spec fn spec_rsa_der_of_private(k: rsa::RsaPrivateKey) -> Result<Seq<u8>, ()>;

/// Relies on rsa::RsaPublicKey::from (From<&RsaPrivateKey>): the public half
/// of a private key, deterministically — so its DER is the private key's.
#[verifier::external_body]
pub fn rsa_public_key_from_private(private_key: &rsa::RsaPrivateKey) -> (r: rsa::RsaPublicKey)
    ensures
        spec_rsa_der_of_public(r) == spec_rsa_der_of_private(*private_key),
{
    rsa::RsaPublicKey::from(private_key)
}

/// Relies on rsa::pkcs8::EncodePublicKey::to_public_key_der: the X.509
/// SubjectPublicKeyInfo DER form of the key, deterministically.
#[verifier::external_body]
pub fn rsa_public_key_to_der(public_key: &rsa::RsaPublicKey) -> (r: Result<Vec<u8>, PacketError>)
    ensures
        match r {
            Ok(d) => spec_rsa_der_of_public(*public_key) == Ok::<Seq<u8>, ()>(d@),
            Err(e) => e == PacketError::EncryptionError && spec_rsa_der_of_public(*public_key)
                is Err,
        },
{
    match public_key.to_public_key_der() {
        Ok(doc) => Ok(doc.as_bytes().to_vec()),
        Err(_) => Err(PacketError::EncryptionError),
    }
}

/// Whether X.509 SubjectPublicKeyInfo DER parsing accepts a byte sequence
/// as an RSA public key: a function of the bytes alone.
pub uninterp spec fn spec_der_ok(der: Seq<u8>) -> bool;

/// Relies on rsa::pkcs8::DecodePublicKey::from_public_key_der: parses an
/// X.509 SubjectPublicKeyInfo DER document, deterministically in the bytes.
#[verifier::external_body]
pub fn rsa_public_key_from_der(der: &Vec<u8>) -> (r: Result<rsa::RsaPublicKey, PacketError>)
    ensures
        r is Ok <==> spec_der_ok(der@),
        r matches Err(e) ==> e == PacketError::EncryptionError,
{
    match rsa::RsaPublicKey::from_public_key_der(der.as_slice()) {
        Ok(k) => Ok(k),
        Err(_) => Err(PacketError::EncryptionError),
    }
}

/// Relies on rsa::RsaPublicKey::encrypt with PKCS#1 v1.5 padding and the OS
/// random source; the ciphertext is randomised, so nothing is promised of
/// its bytes.
#[verifier::external_body]
pub fn encrypt_rsa(public_key: &rsa::RsaPublicKey, data: &Vec<u8>) -> (r: Result<
    Vec<u8>,
    PacketError,
>)
    ensures
        r matches Err(e) ==> e == PacketError::EncryptionError,
{
    let mut rng = rand::rngs::OsRng;
    match public_key.encrypt(&mut rng, rsa::Pkcs1v15Encrypt, data.as_slice()) {
        Ok(c) => Ok(c),
        Err(_) => Err(PacketError::EncryptionError),
    }
}

/// What RSA PKCS#1 v1.5 decryption returns for a private key and a
/// ciphertext: it takes no randomness, so the result is a function of the
/// two alone.
pub uninterp spec fn spec_rsa_decrypt(key: rsa::RsaPrivateKey, data: Seq<u8>) -> Result<
    Seq<u8>,
    (),
>;

/// Relies on rsa::RsaPrivateKey::decrypt with PKCS#1 v1.5 padding, which is
/// deterministic in the key and the ciphertext.
#[verifier::external_body]
pub fn decrypt_rsa(private_key: &rsa::RsaPrivateKey, data: &Vec<u8>) -> (r: Result<
    Vec<u8>,
    PacketError,
>)
    ensures
        match r {
            Ok(p) => spec_rsa_decrypt(*private_key, data@) == Ok::<Seq<u8>, ()>(p@),
            Err(e) => e == PacketError::EncryptionError && spec_rsa_decrypt(*private_key, data@)
                is Err,
        },
{
    match private_key.decrypt(rsa::Pkcs1v15Encrypt, data.as_slice()) {
        Ok(p) => Ok(p),
        Err(_) => Err(PacketError::EncryptionError),
    }
}

/// What SHA-1 returns for a byte sequence.
pub uninterp spec fn spec_sha1(data: Seq<u8>) -> Seq<u8>;

/// Relies on sha1::Sha1 through digest::Digest::digest: the 20-byte SHA-1
/// digest, a function of the input alone.
#[verifier::external_body]
pub fn sha1_digest(data: &Vec<u8>) -> (r: Vec<u8>)
    ensures
        r@ == spec_sha1(data@),
        r@.len() == 20,
{
    sha1::Sha1::digest(data.as_slice()).as_slice().to_vec()
}

/// A hex digit as a character, lowercase.
pub open spec fn spec_hex_char(n: nat) -> char {
    if n == 0 {
        '0'
    } else if n == 1 {
        '1'
    } else if n == 2 {
        '2'
    } else if n == 3 {
        '3'
    } else if n == 4 {
        '4'
    } else if n == 5 {
        '5'
    } else if n == 6 {
        '6'
    } else if n == 7 {
        '7'
    } else if n == 8 {
        '8'
    } else if n == 9 {
        '9'
    } else if n == 10 {
        'a'
    } else if n == 11 {
        'b'
    } else if n == 12 {
        'c'
    } else if n == 13 {
        'd'
    } else if n == 14 {
        'e'
    } else {
        'f'
    }
}

/// The minimal lowercase hex form of a value; "0" for zero.
pub open spec fn spec_hex_chars(n: nat) -> Seq<char>
    decreases n,
{
    if n < 16 {
        seq![spec_hex_char(n)]
    } else {
        spec_hex_chars(n / 16) + seq![spec_hex_char(n % 16)]
    }
}

/// The bytes read as a signed big-endian two's-complement integer, written
/// in lowercase hex with a leading minus for negative values.
pub open spec fn spec_signed_hex(s: Seq<u8>) -> Seq<char> {
    if s.len() == 0 {
        seq!['0']
    } else if s[0] < 0x80 {
        spec_hex_chars(spec_be_val(s))
    } else {
        seq!['-'] + spec_hex_chars((pow(256, s.len()) - spec_be_val(s)) as nat)
    }
}

/// Relies on num_bigint::BigInt::from_signed_bytes_be (two's-complement
/// big-endian) and BigInt::to_str_radix(16) (lowercase, minus-signed, no
/// leading zeros): the signed hex form of the bytes.
#[verifier::external_body]
pub fn signed_hex(digest: &Vec<u8>) -> (r: String)
    ensures
        r@ == spec_signed_hex(digest@),
{
    num_bigint::BigInt::from_signed_bytes_be(digest.as_slice()).to_str_radix(16)
}

} // verus!
