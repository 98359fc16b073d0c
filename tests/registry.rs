use game_net::client::{Client, HostIp, PeerAddr};
use game_net::packet::{AnyPacket, DeserialiseError, GameJoinPacket, Packet, RegPacket};
use game_net::registry::{
    route, RegisterError, Registry, Route, FIRST_CLIENT_ID, LISTENER_TOKEN, UDP_TOKEN,
};

fn local(port: u16) -> PeerAddr {
    PeerAddr { ip: HostIp::V4(0x7f00_0001), port }
}

#[test]
fn first_ids_skip_reserved_tokens_and_increase() {
    let mut r = Registry::new();
    let a = r.register(local(40001)).ok().unwrap();
    let b = r.register(local(40003)).ok().unwrap();
    let c = r.register(local(40005)).ok().unwrap();
    assert_eq!(a, FIRST_CLIENT_ID);
    assert_eq!(a, 2);
    assert_ne!(a, LISTENER_TOKEN);
    assert_ne!(a, UDP_TOKEN);
    assert!(b > a && c > b);
    assert_eq!(r.len(), 3);
}

#[test]
fn ids_are_not_reused_after_removal() {
    let mut r = Registry::new();
    let a = r.register(local(40001)).ok().unwrap();
    assert!(r.remove(a).is_some());
    let b = r.register(local(40003)).ok().unwrap();
    assert!(b > a);
    assert!(r.find_by_id(a).is_none());
    assert!(r.remove(a).is_none());
}

#[test]
fn rendezvous_port_is_one_below() {
    let c = Client::new(7, "", local(5000));
    assert_eq!(c.udp_addr, local(4999));
    assert_eq!(c.id, 7);
    assert_eq!(c.name, "");
    assert!(!c.joined);
    let mut r = Registry::new();
    let id = r.register(local(1)).ok().unwrap();
    assert_eq!(r.find_by_id(id).unwrap().udp_addr, local(0));
}

#[test]
fn port_zero_cannot_register() {
    let mut r = Registry::new();
    assert!(matches!(r.register(local(0)), Err(RegisterError::NoRendezvousPort)));
    assert_eq!(r.len(), 0);
}

#[test]
fn datagram_from_unknown_address_is_dropped() {
    let mut r = Registry::new();
    let id = r.register(local(6001)).ok().unwrap();
    assert_eq!(r.on_datagram(local(6001), &[65, 0]), None);
    let other = PeerAddr { ip: HostIp::V4(0x0a00_0001), port: 6000 };
    assert_eq!(r.on_datagram(other, &[65, 0]), None);
    assert_eq!(r.len(), 1);
    assert!(r.find_by_id(id).unwrap().udp_buf.is_empty());
}

#[test]
fn datagram_from_rendezvous_address_is_queued() {
    let mut r = Registry::new();
    let _ = r.register(local(6001)).ok().unwrap();
    let id = r.register(local(7001)).ok().unwrap();
    assert_eq!(r.find_by_udp_addr(local(7000)), Some(id));
    assert_eq!(r.on_datagram(local(7000), &[65, 0]), Some(id));
    assert_eq!(r.find_by_id(id).unwrap().udp_buf, vec![65, 0]);
}

#[test]
fn stream_registration_sets_name_and_join_marks_client() {
    let mut r = Registry::new();
    let id = r.register(local(8001)).ok().unwrap();
    let frame = RegPacket::new("John").serialise();
    let rep = r.on_stream_bytes(id, &frame[..5]).unwrap();
    assert!(rep.packets.is_empty());
    assert_eq!(r.find_by_id(id).unwrap().name, "");
    let rep = r.on_stream_bytes(id, &frame[5..]).unwrap();
    assert_eq!(rep.packets.len(), 1);
    assert!(rep.too_large.is_none());
    assert_eq!(r.find_by_id(id).unwrap().name, "John");
    assert!(!r.find_by_id(id).unwrap().joined);
    let rep = r.on_stream_bytes(id, &GameJoinPacket.serialise()).unwrap();
    assert!(matches!(rep.packets[0], Ok(AnyPacket::GameJoin(_))));
    assert!(r.find_by_id(id).unwrap().joined);
}

#[test]
fn later_registration_overwrites_name() {
    let mut c = Client::new(3, "", local(9001));
    let mut bytes = RegPacket::new("Ann").serialise();
    bytes.extend(RegPacket::new("Bob").serialise());
    let rep = c.receive_stream(&bytes);
    assert_eq!(rep.packets.len(), 2);
    assert_eq!(c.name, "Bob");
}

#[test]
fn unknown_tag_frame_is_reported_and_skipped() {
    let mut r = Registry::new();
    let id = r.register(local(8001)).ok().unwrap();
    let mut bytes = vec![2, 0, 0, 0, b'x', b'y', b'z', 1, 2];
    bytes.extend(RegPacket::new("Eve").serialise());
    let rep = r.on_stream_bytes(id, &bytes).unwrap();
    assert_eq!(rep.packets.len(), 2);
    assert!(matches!(rep.packets[0], Err(DeserialiseError::UnknownTag)));
    assert!(matches!(rep.packets[1], Ok(AnyPacket::Register(_))));
    assert_eq!(r.find_by_id(id).unwrap().name, "Eve");
}

#[test]
fn oversized_frame_stops_parsing() {
    let mut c = Client::new(4, "", local(9001));
    let rep = c.receive_stream(&[0xff, 0xff, 0xff, 0x7f, b'r', b'e', b'g', 1]);
    assert!(rep.packets.is_empty());
    assert_eq!(rep.too_large, Some(0x7fff_ffff));
    assert_eq!(c.tcp_buf.len(), 8);
}

#[test]
fn bytes_for_unknown_connection_are_ignored() {
    let mut r = Registry::new();
    assert!(r.on_stream_bytes(42, &[0, 0, 0, 0, b'g', b'm', b'j']).is_none());
    assert_eq!(r.len(), 0);
}

#[test]
fn tokens_route_to_sources() {
    assert_eq!(route(LISTENER_TOKEN), Route::Listener);
    assert_eq!(route(UDP_TOKEN), Route::Datagram);
    assert_eq!(route(2), Route::Stream(2));
    assert_eq!(route(99), Route::Stream(99));
}
