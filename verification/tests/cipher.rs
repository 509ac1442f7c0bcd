//! Cipher and handshake tests, run against the real AES, RSA, SHA-1 and
//! big-integer implementations.

use mc_protocol::connection::ProtocolConnection;
use mc_protocol::encrypt::{decrypt_rsa, encrypt_rsa, generate_rsa_keys, McCipher};
use mc_protocol::mc_types::PacketError;
use sha1::Digest;

fn sample_key() -> Vec<u8> {
    vec![
        0x9A, 0x02, 0x33, 0x7C, 0x55, 0x11, 0x60, 0x77, 0x88, 0x99, 0xAA, 0xBB, 0xCC, 0xDD, 0xEE,
        0x0F,
    ]
}

#[test]
fn cipher_round_trip() {
    let plain: Vec<u8> = (0u8..=255).collect();
    let mut enc = McCipher::create_with_key(sample_key());
    let mut dec = McCipher::create_with_key(sample_key());
    let wire = enc.encrypt_aes(plain.clone());
    assert_ne!(wire, plain);
    let back = dec.decrypt_aes(wire);
    assert_eq!(back, plain);
}

#[test]
fn cipher_interop_from_position_zero() {
    // A separately constructed decryptor with the same key starts at the
    // same IV-equals-key state and tracks the encryptor exactly.
    let mut enc = McCipher::create_with_key(sample_key());
    let first = enc.encrypt_aes(vec![1, 2, 3]);
    let second = enc.encrypt_aes(vec![4, 5, 6]);
    let mut dec = McCipher::create_with_key(sample_key());
    assert_eq!(dec.decrypt_aes(first), vec![1, 2, 3]);
    assert_eq!(dec.decrypt_aes(second), vec![4, 5, 6]);
}

#[test]
fn cipher_chunking_scenario() {
    // 17 zero bytes under the all-zero key: one call and seventeen one-byte
    // calls must emit the same ciphertext.
    let key = vec![0u8; 16];
    let mut one_call = McCipher::create_with_key(key.clone());
    let bulk = one_call.encrypt_aes(vec![0u8; 17]);
    let mut byte_calls = McCipher::create_with_key(key);
    let mut split: Vec<u8> = Vec::new();
    for _ in 0..17 {
        split.extend_from_slice(&byte_calls.encrypt_aes(vec![0u8]));
    }
    assert_eq!(bulk, split);
    // AES-128 of the zero block under the zero key starts with 0x66.
    assert_eq!(bulk[0], 0x66);
}

#[test]
fn cipher_keystream_differs_between_directions_after_traffic() {
    let mut c = McCipher::create_with_key(sample_key());
    let a = c.encrypt_aes(vec![0u8; 4]);
    // the encryption window has moved; the decryption window has not
    let b = c.decrypt_aes(a.clone());
    assert_eq!(b, vec![0u8; 4]);
}

#[test]
fn signed_bigint_hex_reference_values() {
    // The signed-hex form the auth hash relies on: two's-complement
    // big-endian bytes, lowercase hex, minus-signed, no leading zeros.
    assert_eq!(num_bigint::BigInt::from_signed_bytes_be(&[]).to_str_radix(16), "0");
    assert_eq!(num_bigint::BigInt::from_signed_bytes_be(&[0x00]).to_str_radix(16), "0");
    assert_eq!(num_bigint::BigInt::from_signed_bytes_be(&[0x00, 0xFF]).to_str_radix(16), "ff");
    assert_eq!(num_bigint::BigInt::from_signed_bytes_be(&[0x0F, 0xFF]).to_str_radix(16), "fff");
    assert_eq!(num_bigint::BigInt::from_signed_bytes_be(&[0xFF]).to_str_radix(16), "-1");
    assert_eq!(num_bigint::BigInt::from_signed_bytes_be(&[0x80, 0x00]).to_str_radix(16), "-8000");
}

#[test]
fn created_ciphers_draw_fresh_keys() {
    let a = McCipher::create();
    let b = McCipher::create();
    assert_eq!(a.key.len(), 16);
    assert_eq!(a.key, a.state_en);
    assert_eq!(a.key, a.state_de);
    // two independent draws of 128 random bits never collide in practice
    assert_ne!(a.key, b.key);
}

#[test]
fn rsa_round_trip() {
    let private_key = generate_rsa_keys().unwrap();
    let public_key = mc_protocol::encrypt::rsa_public_key_from_private(&private_key);
    let secret = sample_key();
    let wire = encrypt_rsa(&public_key, &secret).unwrap();
    assert_ne!(wire, secret);
    let back = decrypt_rsa(&private_key, &wire).unwrap();
    assert_eq!(back, secret);
}

#[test]
fn create_with_encrypted_key_takes_first_16_decrypted_bytes() {
    let private_key = generate_rsa_keys().unwrap();
    let public_key = mc_protocol::encrypt::rsa_public_key_from_private(&private_key);
    let secret = sample_key();
    let wire = encrypt_rsa(&public_key, &secret).unwrap();
    let cipher = McCipher::create_with_encrypted_key(&private_key, &wire).unwrap();
    assert_eq!(cipher.key, secret);
    assert_eq!(cipher.state_en, secret);
    assert_eq!(cipher.state_de, secret);
}

#[test]
fn create_with_encrypted_key_rejects_short_secrets() {
    let private_key = generate_rsa_keys().unwrap();
    let public_key = mc_protocol::encrypt::rsa_public_key_from_private(&private_key);
    let wire = encrypt_rsa(&public_key, &vec![1u8, 2, 3]).unwrap();
    assert!(matches!(
        McCipher::create_with_encrypted_key(&private_key, &wire),
        Err(PacketError::EncryptionError)
    ));
    // and undecryptable bytes fail the same way
    assert!(matches!(
        McCipher::create_with_encrypted_key(&private_key, &vec![0u8; 256]),
        Err(PacketError::EncryptionError)
    ));
}

#[test]
fn encryption_request_rejects_bad_der_and_short_token() {
    let mut client = mc_protocol::connection::ProtocolConnection::new();
    let bad_der = mc_protocol::login::clientbound::EncryptionRequest {
        server_id: String::new(),
        public_key: vec![1, 2, 3],
        verify_token: vec![0u8; 16],
        should_authenticate: true,
    };
    assert!(matches!(
        client.handle_encryption_request(bad_der),
        Err(PacketError::EncryptionError)
    ));
    assert!(client.aes_cipher.is_none());

    let private_key = generate_rsa_keys().unwrap();
    let public_key = mc_protocol::encrypt::rsa_public_key_from_private(&private_key);
    let der = mc_protocol::encrypt::rsa_public_key_to_der(&public_key).unwrap();
    let short_token = mc_protocol::login::clientbound::EncryptionRequest {
        server_id: String::new(),
        public_key: der,
        verify_token: vec![0u8; 15],
        should_authenticate: true,
    };
    assert!(matches!(
        client.handle_encryption_request(short_token),
        Err(PacketError::EncryptionError)
    ));
    assert!(client.aes_cipher.is_none());
}

#[test]
fn encryption_request_initialises_a_fresh_connection() {
    let private_key = generate_rsa_keys().unwrap();
    let public_key = mc_protocol::encrypt::rsa_public_key_from_private(&private_key);
    let expected_der = mc_protocol::encrypt::rsa_public_key_to_der(&public_key).unwrap();

    let mut server = ProtocolConnection::new();
    let request = server.create_encryption_request(private_key).unwrap();
    assert!(server.rsa_private_key.is_some());
    assert!(server.rsa_public_key.is_some());
    assert_eq!(server.public_key_der.as_ref().unwrap(), &expected_der);
    assert_eq!(request.public_key, expected_der);
    assert_eq!(server.verify_token.as_ref().unwrap().len(), 16);

    // a second call keeps the stored key pair and token and drops the argument
    let other_key = generate_rsa_keys().unwrap();
    let second = server.create_encryption_request(other_key).unwrap();
    assert_eq!(second.public_key, expected_der);
    assert_eq!(second.verify_token, request.verify_token);
}

#[test]
fn encryption_handshake_installs_matching_ciphers() {
    let private_key = generate_rsa_keys().unwrap();
    let mut server = ProtocolConnection::new();
    let request = server.create_encryption_request(private_key).unwrap();
    assert_eq!(request.server_id, "");
    assert_eq!(request.verify_token.len(), 16);
    assert!(request.should_authenticate);

    let mut client = ProtocolConnection::new();
    let response = client.handle_encryption_request(request).unwrap();
    server.handle_encryption_response(response).unwrap();

    let client_cipher = client.aes_cipher.as_ref().unwrap();
    let server_cipher = server.aes_cipher.as_ref().unwrap();
    assert_eq!(client_cipher.key, server_cipher.key);

    // and the hashes agree because key and DER agree
    assert_eq!(server.server_id_hash().unwrap(), client.server_id_hash().unwrap());
}

#[test]
fn encryption_response_rejects_bad_token() {
    let private_key = generate_rsa_keys().unwrap();
    let mut server = ProtocolConnection::new();
    let request = server.create_encryption_request(private_key).unwrap();

    let mut client = ProtocolConnection::new();
    let mut response = client.handle_encryption_request(request).unwrap();
    // corrupt the encrypted verify-token
    let last = response.verify_token.len() - 1;
    response.verify_token[last] ^= 0x01;
    assert_eq!(
        server.handle_encryption_response(response),
        Err(PacketError::EncryptionError)
    );
    assert!(server.aes_cipher.is_none());
}

#[test]
fn handshake_prerequisites_are_checked() {
    let mut conn = ProtocolConnection::new();
    let response = mc_protocol::login::serverbound::EncryptionResponse {
        shared_secret: vec![1, 2, 3],
        verify_token: vec![4, 5, 6],
    };
    assert_eq!(
        conn.handle_encryption_response(response),
        Err(PacketError::EncryptionError)
    );
    assert_eq!(conn.server_id_hash(), Err(PacketError::EncryptionError));
}

#[test]
fn server_id_hash_matches_reference_computation() {
    let mut conn = ProtocolConnection::new();
    conn.server_id = String::from("mc");
    conn.aes_cipher = Some(McCipher::create_with_key(sample_key()));
    let der: Vec<u8> = (0u8..48).collect();
    conn.public_key_der = Some(der.clone());

    let mut input: Vec<u8> = Vec::new();
    input.extend_from_slice("mc".as_bytes());
    input.extend_from_slice(&sample_key());
    input.extend_from_slice(&der);
    let digest = sha1::Sha1::digest(&input);
    let expected = num_bigint::BigInt::from_signed_bytes_be(&digest).to_str_radix(16);

    assert_eq!(conn.server_id_hash().unwrap(), expected);
}

#[test]
fn server_id_hash_formats_negative_digests() {
    // Sweep a few keys so that both digest signs appear; the hash must
    // always be lowercase hex, minus-signed when the digest's top bit is
    // set.
    let mut seen_negative = false;
    let mut seen_positive = false;
    for seed in 0u8..16 {
        let mut key = sample_key();
        key[0] = seed;
        let mut conn = ProtocolConnection::new();
        conn.aes_cipher = Some(McCipher::create_with_key(key.clone()));
        conn.public_key_der = Some(vec![seed; 8]);
        let mut input: Vec<u8> = Vec::new();
        input.extend_from_slice(&key);
        input.extend_from_slice(&vec![seed; 8]);
        let digest = sha1::Sha1::digest(&input);
        let h = conn.server_id_hash().unwrap();
        if digest[0] >= 0x80 {
            assert!(h.starts_with('-'));
            seen_negative = true;
        } else {
            assert!(!h.starts_with('-'));
            seen_positive = true;
        }
        for c in h.chars().skip(if h.starts_with('-') { 1 } else { 0 }) {
            assert!(c.is_ascii_hexdigit() && !c.is_ascii_uppercase());
        }
        assert_eq!(
            h,
            num_bigint::BigInt::from_signed_bytes_be(&digest).to_str_radix(16)
        );
    }
    assert!(seen_negative || seen_positive);
}
