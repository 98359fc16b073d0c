use game_net::packet::{
    decode_length, encode_length, AnyPacket, DeserialiseError, GameJoinPacket, Packet, RegPacket,
    TAG_GAME_JOIN, TAG_REGISTER,
};

#[test]
fn register_john_serialises_to_eleven_bytes() {
    let bytes = RegPacket::new("John").serialise();
    assert_eq!(bytes, vec![4, 0, 0, 0, b'r', b'e', b'g', b'J', b'o', b'h', b'n']);
}

#[test]
fn register_john_payload_decodes() {
    let p = RegPacket::deserialise(b"John").ok().unwrap();
    assert_eq!(p.name, "John");
    match AnyPacket::decode(&TAG_REGISTER, b"John") {
        Ok(AnyPacket::Register(r)) => assert_eq!(r.name, "John"),
        _ => panic!("expected a registration"),
    }
}

#[test]
fn game_join_serialises_to_seven_bytes() {
    let bytes = GameJoinPacket.serialise();
    assert_eq!(bytes, vec![0, 0, 0, 0, b'g', b'm', b'j']);
}

#[test]
fn game_join_decodes_from_empty_payload() {
    assert!(matches!(
        AnyPacket::decode(&TAG_GAME_JOIN, &[]),
        Ok(AnyPacket::GameJoin(_))
    ));
}

#[test]
fn register_round_trip_keeps_name() {
    for name in ["", "a", "John", "Zoë", "名前", "x y z 🎮"] {
        let frame = RegPacket::new(name).serialise();
        assert_eq!(frame.len(), 7 + name.len());
        assert_eq!(decode_length(&frame) as usize, name.len());
        let tag = [frame[4], frame[5], frame[6]];
        match AnyPacket::decode(&tag, &frame[7..]) {
            Ok(AnyPacket::Register(r)) => assert_eq!(r.name, name),
            _ => panic!("expected a registration"),
        }
    }
}

#[test]
fn any_packet_serialise_matches_variant() {
    let reg = AnyPacket::Register(RegPacket::new("Ann"));
    assert_eq!(reg.serialise(), vec![3, 0, 0, 0, b'r', b'e', b'g', b'A', b'n', b'n']);
    let join = AnyPacket::GameJoin(GameJoinPacket);
    assert_eq!(join.serialise(), vec![0, 0, 0, 0, b'g', b'm', b'j']);
}

#[test]
fn invalid_utf8_name_is_data_bad() {
    assert!(matches!(
        RegPacket::deserialise(&[0x4a, 0xff, 0x6f]),
        Err(DeserialiseError::DataBad)
    ));
    assert!(matches!(
        AnyPacket::decode(&TAG_REGISTER, &[0xc0, 0x80]),
        Err(DeserialiseError::DataBad)
    ));
    assert!(matches!(
        AnyPacket::decode(&TAG_REGISTER, &[0xed, 0xa0, 0x80]),
        Err(DeserialiseError::DataBad)
    ));
}

#[test]
fn unregistered_tag_is_unknown() {
    assert!(matches!(
        AnyPacket::decode(&[b'x', b'y', b'z'], b"John"),
        Err(DeserialiseError::UnknownTag)
    ));
    assert!(matches!(
        AnyPacket::decode(&[b'r', b'e', b'G'], b"John"),
        Err(DeserialiseError::UnknownTag)
    ));
}

#[test]
fn length_field_is_little_endian() {
    assert_eq!(encode_length(0), [0, 0, 0, 0]);
    assert_eq!(encode_length(4), [4, 0, 0, 0]);
    assert_eq!(encode_length(0x0102_0304), [4, 3, 2, 1]);
    assert_eq!(encode_length(u32::MAX), [255, 255, 255, 255]);
    assert_eq!(decode_length(&[4, 3, 2, 1, 9]), 0x0102_0304);
    assert_eq!(decode_length(&[255, 255, 255, 255]), u32::MAX);
    assert_eq!(decode_length(&[0, 1, 0, 0]), 256);
}

#[test]
fn error_descriptions_differ() {
    let a = DeserialiseError::DataBad.description();
    let b = DeserialiseError::UnknownTag.description();
    assert!(!a.is_empty());
    assert_ne!(a, b);
}

#[test]
fn data_bad_description_keeps_its_wording() {
    let a = DeserialiseError::DataBad.description();
    assert!(a.starts_with("The data was of bad format, or was"));
    assert!(a.ends_with("string to be contained."));
}
