//! Packet round-trip and dispatch tests for every packet kind.

use mc_protocol::handshake::serverbound::{Handshake, HandshakeEnum};
use mc_protocol::login::clientbound as login_cb;
use mc_protocol::login::serverbound as login_sb;
use mc_protocol::mc_types::{convert_var_int, PacketError};
use mc_protocol::play::{Play, PlayPacket};
use mc_protocol::status::clientbound as status_cb;
use mc_protocol::status::serverbound as status_sb;

#[test]
fn handshake_scenario() {
    let p = Handshake {
        protocol_version: 767,
        server_address: String::from("localhost"),
        server_port: 25565,
        next_state: 2,
    };
    let mut expected: Vec<u8> = vec![0x00, 0xFF, 0x05, 0x09];
    expected.extend_from_slice(b"localhost");
    expected.extend_from_slice(&[0x63, 0xDD, 0x02]);
    assert_eq!(p.convert(), expected);
}

#[test]
fn handshake_round_trip() {
    let p = Handshake {
        protocol_version: 767,
        server_address: String::from("mc.example.net"),
        server_port: 25565,
        next_state: 1,
    };
    let mut data = p.convert();
    match HandshakeEnum::read(&mut data).unwrap() {
        HandshakeEnum::Handshake(q) => {
            assert_eq!(q.protocol_version, 767);
            assert_eq!(q.server_address, "mc.example.net");
            assert_eq!(q.server_port, 25565);
            assert_eq!(q.next_state, 1);
        },
    }
}

#[test]
fn handshake_foreign_id() {
    let mut data = convert_var_int(1);
    assert_eq!(
        match HandshakeEnum::read(&mut data) {
            Err(e) => e,
            Ok(_) => panic!("expected an error"),
        },
        PacketError::InvalidPacketId
    );
}

#[test]
fn status_clientbound_round_trip() {
    let p = status_cb::Status {
        response: String::from("{\"version\":{\"name\":\"1.21\",\"protocol\":767}}"),
    };
    let mut data = p.convert();
    match status_cb::StatusPackets::read(&mut data).unwrap() {
        status_cb::StatusPackets::Status(q) => {
            assert_eq!(q.response, "{\"version\":{\"name\":\"1.21\",\"protocol\":767}}");
        },
        _ => panic!("wrong variant"),
    }

    let p = status_cb::Ping { payload: -77i64 };
    let mut data = p.convert();
    match status_cb::StatusPackets::read(&mut data).unwrap() {
        status_cb::StatusPackets::Ping(q) => assert_eq!(q.payload, -77),
        _ => panic!("wrong variant"),
    }
}

#[test]
fn status_serverbound_round_trip() {
    let p = status_sb::Status {};
    let mut data = p.convert();
    assert!(matches!(
        status_sb::StatusPackets::read(&mut data).unwrap(),
        status_sb::StatusPackets::Status(_)
    ));

    let p = status_sb::Ping { payload: i64::MIN };
    let mut data = p.convert();
    match status_sb::StatusPackets::read(&mut data).unwrap() {
        status_sb::StatusPackets::Ping(q) => assert_eq!(q.payload, i64::MIN),
        _ => panic!("wrong variant"),
    }
}

#[test]
fn status_foreign_id() {
    let mut data = convert_var_int(2);
    assert!(matches!(
        status_sb::StatusPackets::read(&mut data),
        Err(PacketError::InvalidPacketId)
    ));
    let mut data = convert_var_int(9);
    assert!(matches!(
        status_cb::StatusPackets::read(&mut data),
        Err(PacketError::InvalidPacketId)
    ));
}

#[test]
fn disconnect_round_trip() {
    let p = login_cb::Disconnect {
        reason: String::from("{\"text\":\"bye\"}"),
    };
    let mut data = p.convert();
    match login_cb::Login::read(&mut data).unwrap() {
        login_cb::Login::Disconnect(q) => assert_eq!(q.reason, "{\"text\":\"bye\"}"),
        _ => panic!("wrong variant"),
    }
}

#[test]
fn encryption_request_round_trip() {
    let p = login_cb::EncryptionRequest {
        server_id: String::from(""),
        public_key: vec![1, 2, 3, 4],
        verify_token: (0u8..16).collect(),
        should_authenticate: true,
    };
    let mut data = p.convert();
    match login_cb::Login::read(&mut data).unwrap() {
        login_cb::Login::EncryptionRequest(q) => {
            assert_eq!(q.server_id, "");
            assert_eq!(q.public_key, vec![1, 2, 3, 4]);
            assert_eq!(q.verify_token, (0u8..16).collect::<Vec<u8>>());
            assert!(q.should_authenticate);
        },
        _ => panic!("wrong variant"),
    }
}

#[test]
fn login_success_round_trip() {
    let p = login_cb::LoginSuccess {
        uuid: 0x00112233445566778899AABBCCDDEEFF,
        username: String::from("Steve"),
        properties: vec![
            login_cb::LoginSuccessProperty {
                name: String::from("textures"),
                value: String::from("blob"),
                signature: Some(String::from("sig")),
            },
            login_cb::LoginSuccessProperty {
                name: String::from("cape"),
                value: String::from("none"),
                signature: None,
            },
        ],
        strict_error_handling: true,
    };
    let mut data = p.convert();
    match login_cb::Login::read(&mut data).unwrap() {
        login_cb::Login::LoginSuccess(q) => {
            assert_eq!(q.uuid, 0x00112233445566778899AABBCCDDEEFF);
            assert_eq!(q.username, "Steve");
            assert_eq!(q.properties.len(), 2);
            assert_eq!(q.properties[0].name, "textures");
            assert_eq!(q.properties[0].value, "blob");
            assert_eq!(q.properties[0].signature.as_deref(), Some("sig"));
            assert_eq!(q.properties[1].name, "cape");
            assert_eq!(q.properties[1].signature, None);
            assert!(q.strict_error_handling);
        },
        _ => panic!("wrong variant"),
    }
}

#[test]
fn set_compression_round_trip() {
    let p = login_cb::SetCompression { threshold: 256 };
    let mut data = p.convert();
    match login_cb::Login::read(&mut data).unwrap() {
        login_cb::Login::SetCompression(q) => assert_eq!(q.threshold, 256),
        _ => panic!("wrong variant"),
    }
}

#[test]
fn plugin_request_round_trip() {
    let p = login_cb::PluginRequest {
        message_id: 7,
        channel: String::from("minecraft:brand"),
        data: vec![0xDE, 0xAD],
    };
    let mut data = p.convert();
    match login_cb::Login::read(&mut data).unwrap() {
        login_cb::Login::PluginRequest(q) => {
            assert_eq!(q.message_id, 7);
            assert_eq!(q.channel, "minecraft:brand");
            assert_eq!(q.data, vec![0xDE, 0xAD]);
        },
        _ => panic!("wrong variant"),
    }
}

#[test]
fn cookie_request_round_trip() {
    let p = login_cb::CookieRequest {
        key: String::from("mc:session"),
    };
    let mut data = p.convert();
    match login_cb::Login::read(&mut data).unwrap() {
        login_cb::Login::CookieRequest(q) => assert_eq!(q.key, "mc:session"),
        _ => panic!("wrong variant"),
    }
}

#[test]
fn login_clientbound_foreign_id() {
    let mut data = convert_var_int(6);
    assert!(matches!(
        login_cb::Login::read(&mut data),
        Err(PacketError::InvalidPacketId)
    ));
}

#[test]
fn login_start_round_trip() {
    let p = login_sb::LoginStart {
        name: String::from("Alex"),
        player_uuid: 42,
    };
    let mut data = p.convert();
    match login_sb::Login::read(&mut data).unwrap() {
        login_sb::Login::LoginStart(q) => {
            assert_eq!(q.name, "Alex");
            assert_eq!(q.player_uuid, 42);
        },
        _ => panic!("wrong variant"),
    }
}

#[test]
fn encryption_response_round_trip() {
    let p = login_sb::EncryptionResponse {
        shared_secret: vec![9u8; 128],
        verify_token: vec![7u8; 128],
    };
    let mut data = p.convert();
    match login_sb::Login::read(&mut data).unwrap() {
        login_sb::Login::EncryptionResponse(q) => {
            assert_eq!(q.shared_secret, vec![9u8; 128]);
            assert_eq!(q.verify_token, vec![7u8; 128]);
        },
        _ => panic!("wrong variant"),
    }
}

#[test]
fn plugin_response_round_trip() {
    let p = login_sb::PluginResponse {
        message_id: -2,
        successful: false,
        data: vec![],
    };
    let mut data = p.convert();
    match login_sb::Login::read(&mut data).unwrap() {
        login_sb::Login::PluginResponse(q) => {
            assert_eq!(q.message_id, -2);
            assert!(!q.successful);
            assert!(q.data.is_empty());
        },
        _ => panic!("wrong variant"),
    }
}

#[test]
fn acknowledged_round_trip() {
    let p = login_sb::Acknowledged {};
    let mut data = p.convert();
    assert_eq!(data, vec![0x03]);
    assert!(matches!(
        login_sb::Login::read(&mut data).unwrap(),
        login_sb::Login::Acknowledged(_)
    ));
}

#[test]
fn cookie_response_round_trip() {
    let p = login_sb::CookieResponse {
        key: String::from("mc:session"),
        has_payload: true,
        payload_length: 3,
        payload: vec![1, 2, 3],
    };
    let mut data = p.convert();
    match login_sb::Login::read(&mut data).unwrap() {
        login_sb::Login::CookieResponse(q) => {
            assert_eq!(q.key, "mc:session");
            assert!(q.has_payload);
            assert_eq!(q.payload_length, 3);
            assert_eq!(q.payload, vec![1, 2, 3]);
        },
        _ => panic!("wrong variant"),
    }
}

#[test]
fn login_serverbound_foreign_id() {
    let mut data = convert_var_int(5);
    assert!(matches!(
        login_sb::Login::read(&mut data),
        Err(PacketError::InvalidPacketId)
    ));
}

#[test]
fn login_truncated_packet_errors() {
    // a Disconnect frame cut short inside the string
    let p = login_cb::Disconnect {
        reason: String::from("abcdef"),
    };
    let mut data = p.convert();
    data.truncate(data.len() - 2);
    assert!(matches!(
        login_cb::Login::read(&mut data),
        Err(PacketError::RanOutOfBytes)
    ));
}

#[test]
fn encoded_packets_begin_with_their_id() {
    assert_eq!(
        login_cb::Disconnect { reason: String::new() }.convert()[0..1],
        convert_var_int(0)[..]
    );
    assert_eq!(
        login_cb::SetCompression { threshold: 0 }.convert()[0..1],
        convert_var_int(3)[..]
    );
    assert_eq!(
        login_sb::EncryptionResponse { shared_secret: vec![], verify_token: vec![] }.convert()[0..1],
        convert_var_int(1)[..]
    );
    assert_eq!(
        status_cb::Ping { payload: 0 }.convert()[0..1],
        convert_var_int(1)[..]
    );
}

#[test]
fn play_packet_passthrough() {
    let mut frame = vec![0x1B, 0x00, 0x07, 0xFF];
    let original = frame.clone();
    match Play::read(&mut frame).unwrap() {
        Play::PlayPacket(p) => {
            assert_eq!(p.data, original);
            assert_eq!(p.convert(), original);
        },
    }
    assert!(frame.is_empty());
    let p = PlayPacket { data: vec![] };
    assert!(p.convert().is_empty());
}
