//! Byte-level codec tests: primitives, VarInt/VarLong, Position, UUID.

use mc_protocol::mc_types::{
    convert_bool, convert_i16, convert_i32, convert_i64, convert_i8, convert_position,
    convert_u16, convert_u32, convert_u64, convert_u8, convert_uuid, convert_var_int,
    convert_var_long, get_bool, get_i16, get_i32, get_i64, get_i8, get_position, get_string,
    get_u16, get_u32, get_u64, get_u8, get_uuid, get_var_int, get_var_long, uuid_string_to_u128,
    uuid_u128_to_string, convert_string, convert_byte_array, get_byte_array, PacketError,
    Position, VERSION_NAME, VERSION_PROTOCOL,
};

#[test]
fn version_constants() {
    assert_eq!(VERSION_NAME, "1.21");
    assert_eq!(VERSION_PROTOCOL, 767);
}

#[test]
fn bool_round_trip() {
    for v in [true, false] {
        let mut data = convert_bool(v);
        assert_eq!(get_bool(&mut data).unwrap(), v);
        assert!(data.is_empty());
    }
    let mut data = vec![7u8];
    assert_eq!(get_bool(&mut data).unwrap(), true);
}

#[test]
fn byte_round_trip() {
    for v in [0u8, 1, 127, 128, 255] {
        let mut data = convert_u8(v);
        assert_eq!(get_u8(&mut data).unwrap(), v);
    }
    for v in [0i8, 1, -1, 127, -128] {
        let mut data = convert_i8(v);
        assert_eq!(get_i8(&mut data).unwrap(), v);
    }
}

#[test]
fn short_round_trip() {
    for v in [0u16, 1, 255, 256, 25565, 65535] {
        let mut data = convert_u16(v);
        assert_eq!(data.len(), 2);
        assert_eq!(get_u16(&mut data).unwrap(), v);
    }
    for v in [0i16, 1, -1, 32767, -32768] {
        let mut data = convert_i16(v);
        assert_eq!(get_i16(&mut data).unwrap(), v);
    }
    assert_eq!(convert_u16(0x63DD), vec![0x63, 0xDD]);
}

#[test]
fn int_round_trip() {
    for v in [0u32, 1, 0xFF, 0x1_0000, 0xDEAD_BEEF, u32::MAX] {
        let mut data = convert_u32(v);
        assert_eq!(data.len(), 4);
        assert_eq!(get_u32(&mut data).unwrap(), v);
    }
    for v in [0i32, 1, -1, i32::MAX, i32::MIN] {
        let mut data = convert_i32(v);
        assert_eq!(get_i32(&mut data).unwrap(), v);
    }
}

#[test]
fn long_round_trip() {
    for v in [0u64, 1, 0xFF, 0xDEAD_BEEF_CAFE_F00D, u64::MAX] {
        let mut data = convert_u64(v);
        assert_eq!(data.len(), 8);
        assert_eq!(get_u64(&mut data).unwrap(), v);
    }
    for v in [0i64, 1, -1, i64::MAX, i64::MIN] {
        let mut data = convert_i64(v);
        assert_eq!(get_i64(&mut data).unwrap(), v);
    }
}

#[test]
fn big_endian_layout() {
    assert_eq!(convert_u32(0x0102_0304), vec![1, 2, 3, 4]);
    assert_eq!(
        convert_u64(0x0102_0304_0506_0708),
        vec![1, 2, 3, 4, 5, 6, 7, 8]
    );
}

#[test]
fn fixed_width_underrun() {
    let mut data = vec![1u8];
    assert_eq!(get_u16(&mut data), Err(PacketError::RanOutOfBytes));
    assert_eq!(data, vec![1u8]);
    let mut data = vec![1u8, 2, 3];
    assert_eq!(get_u32(&mut data), Err(PacketError::RanOutOfBytes));
    let mut data: Vec<u8> = vec![];
    assert_eq!(get_u8(&mut data), Err(PacketError::RanOutOfBytes));
    assert_eq!(get_bool(&mut data), Err(PacketError::RanOutOfBytes));
}

#[test]
fn var_int_scenarios() {
    assert_eq!(convert_var_int(0), vec![0x00]);
    assert_eq!(convert_var_int(1), vec![0x01]);
    assert_eq!(convert_var_int(127), vec![0x7F]);
    assert_eq!(convert_var_int(128), vec![0x80, 0x01]);
    assert_eq!(convert_var_int(-1), vec![0xFF, 0xFF, 0xFF, 0xFF, 0x0F]);
    assert_eq!(convert_var_int(255), vec![0xFF, 0x01]);
    assert_eq!(convert_var_int(25565), vec![0xDD, 0xC7, 0x01]);
}

#[test]
fn var_int_round_trip() {
    for v in [0i32, 1, -1, 127, 128, 255, 25565, i32::MAX, i32::MIN] {
        let mut data = convert_var_int(v);
        assert!(data.len() <= 5);
        assert_eq!(get_var_int(&mut data).unwrap(), v);
        assert!(data.is_empty());
    }
}

#[test]
fn var_long_round_trip() {
    for v in [0i64, 1, -1, 127, 128, i64::MAX, i64::MIN] {
        let mut data = convert_var_long(v);
        assert!(data.len() <= 10);
        assert_eq!(get_var_long(&mut data).unwrap(), v);
        assert!(data.is_empty());
    }
    assert_eq!(
        convert_var_long(-1),
        vec![0xFF, 0xFF, 0xFF, 0xFF, 0xFF, 0xFF, 0xFF, 0xFF, 0xFF, 0x01]
    );
}

#[test]
fn var_int_errors() {
    // every examined byte is consumed, even on failure
    let mut data = vec![0x80u8];
    assert_eq!(get_var_int(&mut data), Err(PacketError::RanOutOfBytes));
    assert!(data.is_empty());
    let mut data = vec![0x80u8, 0x80, 0x80, 0x80, 0x80, 0x01];
    assert_eq!(get_var_int(&mut data), Err(PacketError::ValueTooLarge));
    assert_eq!(data, vec![0x01]);
    let mut data: Vec<u8> = vec![];
    assert_eq!(get_var_int(&mut data), Err(PacketError::RanOutOfBytes));
    let mut data = vec![0x80u8; 10];
    data.push(0x01);
    assert_eq!(get_var_long(&mut data), Err(PacketError::ValueTooLarge));
    assert_eq!(data, vec![0x01]);
}

#[test]
fn string_round_trip() {
    for s in ["", "localhost", "Yeahbut", "\u{00e9}\u{4e16}\u{754c}"] {
        let mut data = convert_string(s);
        let got = get_string(&mut data).unwrap();
        assert_eq!(got, s);
        assert!(data.is_empty());
    }
}

#[test]
fn string_lossy_decode() {
    // VarInt length 2, then an ill-formed UTF-8 sequence.
    let mut data = vec![0x02, 0xC3, 0x28];
    let got = get_string(&mut data).unwrap();
    assert_eq!(got, "\u{FFFD}(");
}

#[test]
fn string_underrun() {
    // the length prefix is consumed; the short content is left unexamined
    let mut data = vec![0x05, b'a', b'b'];
    assert_eq!(get_string(&mut data), Err(PacketError::RanOutOfBytes));
    assert_eq!(data, vec![b'a', b'b']);
}

#[test]
fn byte_array_round_trip() {
    let original = vec![1u8, 2, 3, 255, 0];
    let mut source = original.clone();
    let mut data = convert_byte_array(&mut source);
    assert!(source.is_empty());
    assert_eq!(data[0], 5);
    let got = get_byte_array(&mut data).unwrap();
    assert_eq!(got, original);
    assert!(data.is_empty());
}

#[test]
fn position_scenario() {
    let p = Position {
        x: 18357644,
        z: -20882616,
        y: 831,
    };
    let data = convert_position(p);
    assert_eq!(data, vec![0x46, 0x07, 0x63, 0x2C, 0x15, 0xB4, 0x83, 0x3F]);
}

#[test]
fn position_round_trip() {
    let cases = [
        (0i32, 0i32, 0i16),
        (1, -1, 1),
        (18357644, -20882616, 831),
        (0x1FFFFFF, -0x2000000, -0x800),
        (-0x2000000, 0x1FFFFFF, 0x7FF),
    ];
    for (x, z, y) in cases {
        let p = Position { x, z, y };
        let mut data = convert_position(p);
        let q = get_position(&mut data).unwrap();
        assert_eq!(q.x, x);
        assert_eq!(q.z, z);
        assert_eq!(q.y, y);
        assert!(data.is_empty());
    }
}

#[test]
fn uuid_round_trip() {
    for v in [0u128, 1, 0x00112233445566778899AABBCCDDEEFF, u128::MAX] {
        let mut data = convert_uuid(v);
        assert_eq!(data.len(), 16);
        assert_eq!(get_uuid(&mut data).unwrap(), v);
    }
}

#[test]
fn uuid_string_scenario() {
    let u = 0x00112233445566778899AABBCCDDEEFFu128;
    let s = uuid_u128_to_string(u);
    assert_eq!(s, "00112233-4455-6677-8899-aabbccddeeff");
    assert_eq!(uuid_string_to_u128(&s).unwrap(), u);
}

#[test]
fn uuid_string_round_trip() {
    for u in [0u128, 1, 0xDEAD_BEEF, u128::MAX, 0x123456789ABCDEF0123456789ABCDEF0] {
        let s = uuid_u128_to_string(u);
        assert_eq!(s.len(), 36);
        for (i, c) in s.chars().enumerate() {
            if i == 8 || i == 13 || i == 18 || i == 23 {
                assert_eq!(c, '-');
            } else {
                assert!(c.is_ascii_hexdigit());
                assert!(!c.is_ascii_uppercase());
            }
        }
        assert_eq!(uuid_string_to_u128(&s).unwrap(), u);
    }
}

#[test]
fn uuid_string_errors() {
    assert_eq!(
        uuid_string_to_u128("not a uuid"),
        Err(PacketError::InvalidUUIDString)
    );
    assert_eq!(
        uuid_string_to_u128("00112233-4455-6677-8899-aabbccddeef"),
        Err(PacketError::InvalidUUIDString)
    );
    assert_eq!(
        uuid_string_to_u128("00112233-4455-6677-8899-aabbccddeeffa"),
        Err(PacketError::InvalidUUIDString)
    );
    assert_eq!(
        uuid_string_to_u128("0011223344556677g899aabbccddeeff"),
        Err(PacketError::InvalidUUIDString)
    );
    // hyphens are accepted anywhere, and uppercase digits parse
    assert_eq!(
        uuid_string_to_u128("00112233445566778899AABBCCDDEEFF").unwrap(),
        0x00112233445566778899AABBCCDDEEFFu128
    );
    assert_eq!(
        uuid_string_to_u128("-00112233445566778899aabbccddeeff-").unwrap(),
        0x00112233445566778899AABBCCDDEEFFu128
    );
}

#[test]
fn error_messages() {
    assert_eq!(PacketError::ValueTooLarge.message(), "VarInt value is too large");
    assert_eq!(PacketError::RanOutOfBytes.message(), "Ran out of bytes while reading");
    assert_eq!(PacketError::InvalidPacketId.message(), "Invalid packet id");
    assert_eq!(PacketError::InvalidUUIDString.message(), "Invalid UUID format");
    assert_eq!(PacketError::EncryptionError.message(), "Encryption Error");
}
