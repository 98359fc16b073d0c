use game_net::assembler::{Assembled, FrameAssembler, DEFAULT_MAX_PAYLOAD};
use game_net::packet::{AnyPacket, GameJoinPacket, Packet, RegPacket, TAG_GAME_JOIN, TAG_REGISTER};

fn john_frame() -> Vec<u8> {
    RegPacket::new("John").serialise()
}

#[test]
fn split_delivery_waits_until_frame_is_whole() {
    let frame = john_frame();
    assert_eq!(frame.len(), 11);
    let mut whole = FrameAssembler::new(DEFAULT_MAX_PAYLOAD);
    whole.feed(&frame);
    let expected = match whole.try_take_frame() {
        Assembled::Frame(f) => f,
        _ => panic!("expected a frame"),
    };
    for k in 1..frame.len() {
        let mut a = FrameAssembler::new(DEFAULT_MAX_PAYLOAD);
        a.feed(&frame[..k]);
        assert!(matches!(a.try_take_frame(), Assembled::NeedMoreData));
        assert_eq!(a.len(), k);
        a.feed(&frame[k..]);
        match a.try_take_frame() {
            Assembled::Frame(f) => {
                assert_eq!(f.tag, expected.tag);
                assert_eq!(f.payload, expected.payload);
            }
            _ => panic!("expected a frame at split {}", k),
        }
        assert_eq!(a.len(), 0);
        assert!(matches!(a.try_take_frame(), Assembled::NeedMoreData));
    }
}

#[test]
fn byte_by_byte_delivery_yields_one_frame() {
    let frame = john_frame();
    let mut a = FrameAssembler::new(DEFAULT_MAX_PAYLOAD);
    for (i, b) in frame.iter().enumerate() {
        a.feed(&[*b]);
        let r = a.try_take_frame();
        if i + 1 < frame.len() {
            assert!(matches!(r, Assembled::NeedMoreData));
        } else {
            match r {
                Assembled::Frame(f) => {
                    assert_eq!(f.tag, TAG_REGISTER);
                    assert_eq!(f.payload, b"John".to_vec());
                }
                _ => panic!("expected a frame"),
            }
        }
    }
}

#[test]
fn two_frames_in_one_feed_come_out_in_order() {
    let mut bytes = john_frame();
    bytes.extend(GameJoinPacket.serialise());
    let mut a = FrameAssembler::new(DEFAULT_MAX_PAYLOAD);
    a.feed(&bytes);
    match a.try_take_frame() {
        Assembled::Frame(f) => {
            assert_eq!(f.tag, TAG_REGISTER);
            assert_eq!(f.payload, b"John".to_vec());
        }
        _ => panic!("expected the registration first"),
    }
    match a.try_take_frame() {
        Assembled::Frame(f) => {
            assert_eq!(f.tag, TAG_GAME_JOIN);
            assert!(f.payload.is_empty());
            assert!(matches!(f.decode(), Ok(AnyPacket::GameJoin(_))));
        }
        _ => panic!("expected the game-join second"),
    }
    assert!(matches!(a.try_take_frame(), Assembled::NeedMoreData));
}

#[test]
fn empty_payload_frame_taken_at_seven_bytes() {
    let mut a = FrameAssembler::new(DEFAULT_MAX_PAYLOAD);
    a.feed(&[0, 0, 0, 0, b'g', b'm']);
    assert!(matches!(a.try_take_frame(), Assembled::NeedMoreData));
    a.feed(&[b'j']);
    assert!(matches!(a.try_take_frame(), Assembled::Frame(_)));
}

#[test]
fn oversized_header_is_refused_and_kept() {
    let mut a = FrameAssembler::new(16);
    a.feed(&[17, 0, 0, 0, b'r', b'e', b'g']);
    assert!(matches!(a.try_take_frame(), Assembled::TooLarge(17)));
    assert_eq!(a.len(), 7);
    let mut b = FrameAssembler::new(16);
    b.feed(&[16, 0, 0, 0, b'r', b'e', b'g']);
    assert!(matches!(b.try_take_frame(), Assembled::NeedMoreData));
    b.feed(&[b'a'; 16]);
    assert!(matches!(b.try_take_frame(), Assembled::Frame(_)));
}

#[test]
fn trailing_partial_frame_stays_queued() {
    let mut bytes = john_frame();
    bytes.extend_from_slice(&[5, 0, 0]);
    let mut a = FrameAssembler::new(DEFAULT_MAX_PAYLOAD);
    a.feed(&bytes);
    assert!(matches!(a.try_take_frame(), Assembled::Frame(_)));
    assert!(matches!(a.try_take_frame(), Assembled::NeedMoreData));
    assert_eq!(a.len(), 3);
}
