//! Frame-level tests over clear and encrypted channels.

use mc_protocol::connection::{ProtocolConnection, ReadHaftProtocolConnection};
use mc_protocol::encrypt::McCipher;
use mc_protocol::mc_types::get_var_int;

/// Drives the read side the way a connection does: deciphers length-prefix
/// bytes one at a time until the continuation bit clears, then deciphers the
/// body as one block.
fn read_frame(conn: &mut ProtocolConnection, wire: &[u8]) -> (Vec<u8>, usize) {
    let mut idx = 0usize;
    let mut len_bytes: Vec<u8> = Vec::new();
    loop {
        let b = conn.decrypt_frame_byte(wire[idx]);
        idx += 1;
        len_bytes.push(b);
        if b & 0x80 == 0 {
            break;
        }
    }
    let len = get_var_int(&mut len_bytes).unwrap() as usize;
    let body = wire[idx..idx + len].to_vec();
    idx += len;
    (conn.decrypt_frame_body(body), idx)
}

#[test]
fn frame_round_trip_clear() {
    let mut writer = ProtocolConnection::new();
    let mut reader = ProtocolConnection::new();
    let payload: Vec<u8> = (0u8..=200).collect();
    let wire = writer.encode_frame(&payload);
    assert_eq!(wire[0] as usize & 0x7F, 201 & 0x7F);
    let (got, used) = read_frame(&mut reader, &wire);
    assert_eq!(got, payload);
    assert_eq!(used, wire.len());
}

#[test]
fn frame_round_trip_encrypted() {
    let key = vec![0x42u8; 16];
    let mut writer = ProtocolConnection::new();
    writer.aes_cipher = Some(McCipher::create_with_key(key.clone()));
    let mut reader = ProtocolConnection::new();
    reader.aes_cipher = Some(McCipher::create_with_key(key));

    for round in 0u8..3 {
        let payload: Vec<u8> = (0u8..50).map(|b| b ^ round).collect();
        let wire = writer.encode_frame(&payload);
        assert_ne!(wire[1..], payload[..]);
        let (got, used) = read_frame(&mut reader, &wire);
        assert_eq!(got, payload);
        assert_eq!(used, wire.len());
    }
}

#[test]
fn frame_round_trip_large_payload() {
    // the historical uncompressed cap
    let payload = vec![0xA5u8; 1 << 21];
    let mut writer = ProtocolConnection::new();
    let mut reader = ProtocolConnection::new();
    let wire = writer.encode_frame(&payload);
    let (got, used) = read_frame(&mut reader, &wire);
    assert_eq!(got.len(), payload.len());
    assert_eq!(got, payload);
    assert_eq!(used, wire.len());
}

#[test]
fn split_halves_share_key_but_not_windows() {
    let key = vec![0x37u8; 16];
    let mut server = ProtocolConnection::new();
    server.aes_cipher = Some(McCipher::create_with_key(key.clone()));
    let (mut write_half, _read_half) = server.split_conn();

    // peer with the same key, reading what the write half emits
    let mut peer = ProtocolConnection::new();
    peer.aes_cipher = Some(McCipher::create_with_key(key));

    let payload = vec![9u8, 8, 7, 6];
    let wire = write_half.encode_frame(&payload);
    let mut idx = 0usize;
    let mut len_bytes: Vec<u8> = Vec::new();
    loop {
        let b = peer.decrypt_frame_byte(wire[idx]);
        idx += 1;
        len_bytes.push(b);
        if b & 0x80 == 0 {
            break;
        }
    }
    let len = get_var_int(&mut len_bytes).unwrap() as usize;
    let got = peer.decrypt_frame_body(wire[idx..idx + len].to_vec());
    assert_eq!(got, payload);
}

#[test]
fn read_half_decrypts_like_the_connection() {
    let key = vec![0x11u8; 16];
    let mut writer = ProtocolConnection::new();
    writer.aes_cipher = Some(McCipher::create_with_key(key.clone()));
    let mut read_half = ReadHaftProtocolConnection::new();
    read_half.aes_cipher = Some(McCipher::create_with_key(key));

    let payload = vec![1u8, 1, 2, 3, 5, 8, 13];
    let wire = writer.encode_frame(&payload);
    let mut idx = 0usize;
    let mut len_bytes: Vec<u8> = Vec::new();
    loop {
        let b = read_half.decrypt_frame_byte(wire[idx]);
        idx += 1;
        len_bytes.push(b);
        if b & 0x80 == 0 {
            break;
        }
    }
    let len = get_var_int(&mut len_bytes).unwrap() as usize;
    let got = read_half.decrypt_frame_body(wire[idx..idx + len].to_vec());
    assert_eq!(got, payload);
}
