use mcproto::buffer::ByteBuf;
use mcproto::frame::{build_frame, read_frame};
use mcproto::packet::clientbound;
use mcproto::packet::serverbound::{Handshake, KeepAlive, LoginStart, LoginState};
use mcproto::packet::{deserialize_new, to_packet_id, Packet, PacketID, PacketSerializer};
use mcproto::protocol::ProtocolVersion;

#[test]
fn valid_handshake_test() {
    let h = Handshake {
        protocol_version: 340,
        address: "localhost".to_string(),
        port: 25565,
        next_state: LoginState::Login,
    };

    let mut buf = h.serialize_with_id(&ProtocolVersion::V_1_12_2);
    assert_eq!(16, buf.len());

    assert_eq!(PacketID::Handshake.value(), buf.read_var_int().unwrap());
    let h2 = deserialize_new::<Handshake>(&mut buf).unwrap();
    assert_eq!(h.protocol_version, h2.protocol_version);
    assert_eq!(h.address, h2.address);
    assert_eq!(h.port, h2.port);
    assert_eq!(h.next_state, h2.next_state);
}

#[test]
fn handshake_wire_bytes_end_to_end() {
    let h = Handshake {
        protocol_version: 340,
        address: "localhost".to_string(),
        port: 25565,
        next_state: LoginState::Login,
    };
    let body = h.serialize_with_id(&ProtocolVersion::V_1_12_2);

    // VarInt(0x00) + VarInt(340) + VarInt(9) + "localhost" + u16be(25565) + VarInt(2)
    let mut expected: Vec<u8> = vec![0x00, 0xD4, 0x02, 0x09];
    expected.extend_from_slice(b"localhost");
    expected.extend_from_slice(&[0x63, 0xDD, 0x02]);
    assert_eq!(16, expected.len());
    assert_eq!(expected.as_slice(), body.as_slice());

    // framed with no compression: a one-byte length prefix of 16
    let frame = build_frame(body.as_slice(), None).unwrap();
    assert_eq!(17, frame.len());
    assert_eq!(16, frame.as_slice()[0]);

    // reading the frame recovers all four fields exactly
    let mut rd = ByteBuf::from_slice(frame.as_slice());
    let (id, mut payload) = read_frame(&mut rd, false).unwrap();
    assert_eq!(0x00, id);
    let h2 = deserialize_new::<Handshake>(&mut payload).unwrap();
    assert_eq!(340, h2.protocol_version);
    assert_eq!("localhost", h2.address);
    assert_eq!(25565, h2.port);
    assert_eq!(LoginState::Login, h2.next_state);
    assert!(payload.end());
}

#[test]
fn keep_alive_round_trip() {
    let ka = KeepAlive { id: 123456789 };
    let mut buf = ka.serialize_with_id(&ProtocolVersion::V_1_12_2);
    assert_eq!(PacketID::KeepAliveSB.value(), buf.read_var_int().unwrap());
    let ka2 = deserialize_new::<KeepAlive>(&mut buf).unwrap();
    assert_eq!(ka.id, ka2.id);

    let cb = clientbound::KeepAlive { id: -42 };
    let mut buf = cb.serialize_with_id(&ProtocolVersion::V_1_12_2);
    assert_eq!(PacketID::KeepAliveCB.value(), buf.read_var_int().unwrap());
    let cb2 = deserialize_new::<clientbound::KeepAlive>(&mut buf).unwrap();
    assert_eq!(cb.id, cb2.id);
}

#[test]
fn set_compression_round_trip() {
    let sc = clientbound::SetCompression { threshold: 256 };
    let mut buf = sc.serialize_with_id(&ProtocolVersion::V_1_12_2);
    assert_eq!(PacketID::SetCompression.value(), buf.read_var_int().unwrap());
    let sc2 = deserialize_new::<clientbound::SetCompression>(&mut buf).unwrap();
    assert_eq!(256, sc2.threshold);
}

#[test]
fn login_start_round_trip() {
    let ls = LoginStart { username: "test".to_string() };
    let mut buf = ls.serialize_with_id(&ProtocolVersion::V_1_12_2);
    assert_eq!(0x00, buf.read_var_int().unwrap());
    let ls2 = deserialize_new::<LoginStart>(&mut buf).unwrap();
    assert_eq!("test", ls2.username);
}

#[test]
fn encryption_request_round_trip() {
    let er = clientbound::EncryptionRequest { id: 7 };
    let mut buf = er.serialize_with_id(&ProtocolVersion::V_1_12_2);
    assert_eq!(PacketID::EncryptionRequest.value(), buf.read_var_int().unwrap());
    let er2 = deserialize_new::<clientbound::EncryptionRequest>(&mut buf).unwrap();
    assert_eq!(7, er2.id);
}

#[test]
fn packet_id_mapping() {
    assert_eq!(PacketID::KeepAliveCB, to_packet_id(0x1F));
    assert_eq!(PacketID::KeepAliveSB, to_packet_id(0x0B));
    assert_eq!(PacketID::SetCompression, to_packet_id(0x03));
    assert_eq!(PacketID::Handshake, to_packet_id(0x00));
    assert_eq!(PacketID::EncryptionRequest, to_packet_id(0x01));
    assert_eq!(PacketID::Unknown, to_packet_id(0x99));
    assert_eq!(PacketID::Unknown, to_packet_id(-5));
}

#[test]
fn login_state_mapping() {
    assert_eq!(2, LoginState::Login.as_i32());
    assert_eq!(0, LoginState::Undefined.as_i32());
    assert_eq!(LoginState::Login, LoginState::from_i32(2));
    assert_eq!(LoginState::Undefined, LoginState::from_i32(0));
    assert_eq!(LoginState::Undefined, LoginState::from_i32(77));
}

#[test]
fn check_pre_accepts_ordinary_packets() {
    let h = Handshake {
        protocol_version: 340,
        address: "localhost".to_string(),
        port: 25565,
        next_state: LoginState::Login,
    };
    assert!(h.check_pre());
    assert!(LoginStart { username: "test".to_string() }.check_pre());
}

#[test]
fn protocol_version_number() {
    assert_eq!(340, ProtocolVersion::V_1_12_2.number());
}
