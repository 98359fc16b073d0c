//! One connected peer: its identity, the address its unreliable traffic is
//! expected from, and the bytes it sent that are not yet handled.
use vstd::prelude::*;

use crate::assembler::{
    lemma_split_delivery, lemma_take_whole_frame, spec_take, Assembled, FrameAssembler, TakeModel, DEFAULT_MAX_PAYLOAD,
};
use crate::packet::{
    frame_of, lemma_round_trip, model_payload, model_tag, spec_decode, spec_serialise, AnyPacket,
    DeserialiseError, PacketModel, HEADER_LEN, TAG_GAME_JOIN, TAG_REGISTER,
};

verus! {

/// The host part of a socket address.
#[derive(Debug, Clone, Copy, PartialEq, Eq, Hash, Structural)]
pub enum HostIp {
    /// An IPv4 address, its four octets read as a big-endian number.
    V4(u32),
    /// An IPv6 address, its sixteen octets read as a big-endian number.
    V6(u128),
}

/// A socket address: host and port.
#[derive(Debug, Clone, Copy, PartialEq, Eq, Hash, Structural)]
pub struct PeerAddr {
    pub ip: HostIp,
    pub port: u16,
}

impl PeerAddr {
    /// The address where a peer connected over TCP from `self` is expected to
    /// send datagrams from: the same host, the port below.
    pub open spec fn spec_rendezvous(self) -> PeerAddr {
        PeerAddr { ip: self.ip, port: (self.port - 1) as u16 }
    }

    /// The datagram address paired with this TCP peer address.
    pub fn rendezvous(&self) -> (r: PeerAddr)
        requires
            self.port >= 1,
        ensures
            r == self.spec_rendezvous(),
    {
        PeerAddr { ip: self.ip, port: self.port - 1 }
    }
}

/// What decoding one frame gave, as values.
pub open spec fn outcome_model(o: Result<AnyPacket, DeserialiseError>) -> Result<PacketModel, DeserialiseError> {
    match o {
        Ok(p) => Ok(p@),
        Err(e) => Err(e),
    }
}

/// What decoding a run of frames gave, as values.
pub open spec fn outcomes_model(os: Seq<Result<AnyPacket, DeserialiseError>>) -> Seq<Result<PacketModel, DeserialiseError>> {
    os.map_values(|o: Result<AnyPacket, DeserialiseError>| outcome_model(o))
}

/// The frames taken from a queue until it holds no complete frame, each
/// decoded; what stays queued; and the announced length that stopped the
/// run, if a header asked for more than the limit.
pub struct DrainModel {
    pub outcomes: Seq<Result<PacketModel, DeserialiseError>>,
    pub rest: Seq<u8>,
    pub too_large: Option<nat>,
}

/// Takes frames from the front of `q` as long as there is a complete one.
pub open spec fn spec_drain(q: Seq<u8>, max: nat) -> DrainModel
    decreases q.len(),
{
    match spec_take(q, max) {
        TakeModel::Frame { tag, payload } => {
            if HEADER_LEN + payload.len() <= q.len() {
                let d = spec_drain(q.subrange(HEADER_LEN + payload.len(), q.len() as int), max);
                DrainModel {
                    outcomes: seq![spec_decode(tag, payload)] + d.outcomes,
                    rest: d.rest,
                    too_large: d.too_large,
                }
            } else {
                DrainModel { outcomes: Seq::empty(), rest: q, too_large: None }
            }
        },
        TakeModel::NeedMoreData => DrainModel { outcomes: Seq::empty(), rest: q, too_large: None },
        TakeModel::TooLarge(n) => DrainModel { outcomes: Seq::empty(), rest: q, too_large: Some(n) },
    }
}

/// A well-formed frame under a tag that no variant is registered under is
/// taken whole and reported as an unknown tag, not read as any variant.
/// The client's name and join request stay as they were.
pub proof fn lemma_unknown_tag_reported(
    tag: Seq<u8>,
    payload: Seq<u8>,
    max: nat,
    name: Seq<char>,
    joined: bool,
)
    requires
        tag.len() == 3,
        tag != TAG_REGISTER@,
        tag != TAG_GAME_JOIN@,
        payload.len() <= max,
        payload.len() <= u32::MAX,
    ensures
        spec_drain(frame_of(tag, payload), max) == (DrainModel {
            outcomes: seq![Err::<PacketModel, DeserialiseError>(DeserialiseError::UnknownTag)],
            rest: Seq::empty(),
            too_large: None,
        }),
        name_after(name, spec_drain(frame_of(tag, payload), max).outcomes) == name,
        joined_after(joined, spec_drain(frame_of(tag, payload), max).outcomes) == joined,
{
    lemma_take_whole_frame(tag, payload, Seq::empty(), max);
    assert(frame_of(tag, payload) + Seq::<u8>::empty() =~= frame_of(tag, payload));
    let f = frame_of(tag, payload);
    assert(f.subrange(HEADER_LEN + payload.len(), f.len() as int) =~= Seq::<u8>::empty());
    assert(spec_drain(Seq::<u8>::empty(), max).outcomes =~= Seq::empty());
    let os = seq![Err::<PacketModel, DeserialiseError>(DeserialiseError::UnknownTag)];
    assert(os + Seq::empty() =~= os);
    assert(spec_drain(f, max).outcomes == os);
    assert(os.drop_last() =~= Seq::empty());
    assert(name_after(name, os) == name_after(name, os.drop_last()));
    assert(joined_after(joined, os) == joined_after(joined, os.drop_last()));
}

/// The drain of a queue that holds no complete frame takes nothing and keeps
/// every byte.
proof fn lemma_drain_waiting(q: Seq<u8>, max: nat)
    requires
        spec_take(q, max) == TakeModel::NeedMoreData,
    ensures
        spec_drain(q, max) == (DrainModel { outcomes: Seq::empty(), rest: q, too_large: None }),
{
}

/// A frame whose bytes arrive in pieces, split anywhere: while only a part
/// has arrived, parsing takes nothing, changes nothing and keeps every byte;
/// once all of it has arrived, parsing takes that one frame, decoded, and
/// leaves nothing queued.
pub proof fn lemma_split_frame_parsed(tag: Seq<u8>, payload: Seq<u8>, max: nat, k: int, name: Seq<char>, joined: bool)
    requires
        tag.len() == 3,
        payload.len() <= max,
        payload.len() <= u32::MAX,
        0 <= k < frame_of(tag, payload).len(),
    ensures
        spec_drain(frame_of(tag, payload).take(k), max) == (DrainModel {
            outcomes: Seq::empty(),
            rest: frame_of(tag, payload).take(k),
            too_large: None,
        }),
        name_after(name, spec_drain(frame_of(tag, payload).take(k), max).outcomes) == name,
        joined_after(joined, spec_drain(frame_of(tag, payload).take(k), max).outcomes) == joined,
        spec_drain(frame_of(tag, payload).take(k) + frame_of(tag, payload).skip(k), max) == (DrainModel {
            outcomes: seq![spec_decode(tag, payload)],
            rest: Seq::empty(),
            too_large: None,
        }),
{
    let f = frame_of(tag, payload);
    lemma_split_delivery(tag, payload, max, k);
    lemma_drain_waiting(f.take(k), max);
    assert(f.take(k) + f.skip(k) =~= f);
    lemma_take_whole_frame(tag, payload, Seq::empty(), max);
    assert(f + Seq::<u8>::empty() =~= f);
    assert(f.subrange(HEADER_LEN + payload.len(), f.len() as int) =~= Seq::<u8>::empty());
    lemma_drain_waiting(Seq::empty(), max);
    assert(seq![spec_decode(tag, payload)] + Seq::empty() =~= seq![spec_decode(tag, payload)]);
}

/// Two complete frames followed by bytes that hold no complete frame:
/// parsing takes the two frames, in the order they arrived, and stops with
/// the trailing bytes still queued.
pub proof fn lemma_two_frames_parsed(
    tag1: Seq<u8>,
    payload1: Seq<u8>,
    tag2: Seq<u8>,
    payload2: Seq<u8>,
    rest: Seq<u8>,
    max: nat,
)
    requires
        tag1.len() == 3,
        tag2.len() == 3,
        payload1.len() <= max,
        payload2.len() <= max,
        payload1.len() <= u32::MAX,
        payload2.len() <= u32::MAX,
        spec_take(rest, max) == TakeModel::NeedMoreData,
    ensures
        spec_drain(frame_of(tag1, payload1) + frame_of(tag2, payload2) + rest, max) == (DrainModel {
            outcomes: seq![spec_decode(tag1, payload1), spec_decode(tag2, payload2)],
            rest,
            too_large: None,
        }),
{
    let f1 = frame_of(tag1, payload1);
    let f2 = frame_of(tag2, payload2);
    let q = f1 + f2 + rest;
    assert(q =~= f1 + (f2 + rest));
    lemma_take_whole_frame(tag1, payload1, f2 + rest, max);
    assert(q.subrange(HEADER_LEN + payload1.len(), q.len() as int) =~= f2 + rest);
    lemma_take_whole_frame(tag2, payload2, rest, max);
    let q2 = f2 + rest;
    assert(q2.subrange(HEADER_LEN + payload2.len(), q2.len() as int) =~= rest);
    lemma_drain_waiting(rest, max);
    assert(seq![spec_decode(tag2, payload2)] + Seq::empty() =~= seq![spec_decode(tag2, payload2)]);
    assert(spec_drain(q2, max) == (DrainModel {
        outcomes: seq![spec_decode(tag2, payload2)],
        rest,
        too_large: None,
    }));
    assert(seq![spec_decode(tag1, payload1)] + seq![spec_decode(tag2, payload2)] =~= seq![
        spec_decode(tag1, payload1),
        spec_decode(tag2, payload2),
    ]);
}

/// The frame of any packet, once it has fully arrived, is taken and decoded
/// back to that packet, leaving nothing queued.
pub proof fn lemma_serialised_packet_drains(p: PacketModel, max: nat)
    requires
        model_payload(p).len() <= max,
        model_payload(p).len() <= u32::MAX,
    ensures
        spec_drain(spec_serialise(p), max) == (DrainModel {
            outcomes: seq![Ok::<PacketModel, DeserialiseError>(p)],
            rest: Seq::empty(),
            too_large: None,
        }),
{
    let tag = model_tag(p);
    let payload = model_payload(p);
    let f = spec_serialise(p);
    lemma_round_trip(p);
    assert(tag.len() == 3);
    lemma_take_whole_frame(tag, payload, Seq::empty(), max);
    assert(f + Seq::<u8>::empty() =~= f);
    assert(f.subrange(HEADER_LEN as int, f.len() as int) =~= payload);
    assert(f.subrange(4, HEADER_LEN as int) =~= tag);
    assert(f.subrange(HEADER_LEN + payload.len(), f.len() as int) =~= Seq::<u8>::empty());
    assert(spec_drain(Seq::<u8>::empty(), max).outcomes =~= Seq::empty());
    assert(seq![Ok::<PacketModel, DeserialiseError>(p)] + Seq::empty() =~= seq![Ok::<
        PacketModel,
        DeserialiseError,
    >(p)]);
}

/// The display name after handling `os`: that of the last registration, or
/// `name` if there was none.
pub open spec fn name_after(name: Seq<char>, os: Seq<Result<PacketModel, DeserialiseError>>) -> Seq<char>
    decreases os.len(),
{
    if os.len() == 0 {
        name
    } else {
        match os.last() {
            Ok(PacketModel::Register(n)) => n,
            _ => name_after(name, os.drop_last()),
        }
    }
}

/// Whether the peer has asked to join the game after handling `os`.
pub open spec fn joined_after(joined: bool, os: Seq<Result<PacketModel, DeserialiseError>>) -> bool
    decreases os.len(),
{
    if os.len() == 0 {
        joined
    } else {
        os.last() == Ok::<PacketModel, DeserialiseError>(PacketModel::GameJoin) || joined_after(
            joined,
            os.drop_last(),
        )
    }
}

/// What one call of `Client::try_parse_packets` found.
pub struct ParseReport {
    /// Each frame taken, in arrival order, decoded.
    pub packets: Vec<Result<AnyPacket, DeserialiseError>>,
    /// The payload length announced by a header over the limit, which left
    /// the stream unreadable.
    pub too_large: Option<u32>,
}

/// Whether `after` and `report` are what handling every complete frame at the
/// front of queue `q` makes of client `before`: the frames are taken and
/// decoded in order, the last registration sets the name, a game-join marks
/// the client as joining, and an over-long header stops the run.
pub open spec fn parsed_from(before: Client, q: Seq<u8>, after: Client, report: ParseReport) -> bool {
    let d = spec_drain(q, before.tcp_buf.max());
    &&& outcomes_model(report.packets@) == d.outcomes
    &&& report.too_large is Some ==> d.too_large == Some(report.too_large->Some_0 as nat)
    &&& report.too_large is None ==> d.too_large is None
    &&& after.tcp_buf.queued() == d.rest
    &&& after.tcp_buf.max() == before.tcp_buf.max()
    &&& after.name@ == name_after(before.name@, d.outcomes)
    &&& after.joined == joined_after(before.joined, d.outcomes)
    &&& after.id == before.id
    &&& after.udp_addr == before.udp_addr
    &&& after.udp_buf@ == before.udp_buf@
}

/// Whether `after` is `before` with `bytes` added to its datagram queue.
pub open spec fn datagram_queued(before: Client, after: Client, bytes: Seq<u8>) -> bool {
    &&& after.udp_buf@ == before.udp_buf@ + bytes
    &&& after.id == before.id
    &&& after.name@ == before.name@
    &&& after.udp_addr == before.udp_addr
    &&& after.tcp_buf.queued() == before.tcp_buf.queued()
    &&& after.tcp_buf.max() == before.tcp_buf.max()
    &&& after.joined == before.joined
}

/// A connected peer.
pub struct Client {
    /// The identifier of this client, unique for the server's lifetime.
    pub id: usize,
    /// The display name; empty until a registration arrives.
    pub name: String,
    /// Where this client's datagrams are expected from.
    pub udp_addr: PeerAddr,
    /// Datagram bytes from this client not yet handled.
    pub udp_buf: Vec<u8>,
    /// Stream bytes from this client not yet assembled into frames.
    pub tcp_buf: FrameAssembler,
    /// Whether this client has asked to join the game.
    pub joined: bool,
}

impl Client {
    /// A client with identifier `id` and display name `name`, connected over
    /// TCP from `tcp_peer`; its datagrams are expected from the port below.
    pub fn new(id: usize, name: &str, tcp_peer: PeerAddr) -> (r: Client)
        requires
            tcp_peer.port >= 1,
        ensures
            r.id == id,
            r.name@ == name@,
            r.udp_addr == tcp_peer.spec_rendezvous(),
            r.udp_buf@ == Seq::<u8>::empty(),
            r.tcp_buf.queued() == Seq::<u8>::empty(),
            r.tcp_buf.max() == DEFAULT_MAX_PAYLOAD,
            !r.joined,
    {
        Client {
            id,
            name: name.to_owned(),
            udp_addr: tcp_peer.rendezvous(),
            udp_buf: Vec::new(),
            tcp_buf: FrameAssembler::new(DEFAULT_MAX_PAYLOAD),
            joined: false,
        }
    }

    /// Takes every complete frame from the stream queue, decodes it and
    /// applies it: a registration sets the name, a game-join marks the client
    /// as joining. Frames that do not decode are reported and change nothing.
    pub fn try_parse_packets(&mut self) -> (r: ParseReport)
        ensures
            parsed_from(*old(self), old(self).tcp_buf.queued(), *final(self), r),
    {
        let ghost q0 = self.tcp_buf.queued();
        let ghost max = self.tcp_buf.max();
        let mut packets: Vec<Result<AnyPacket, DeserialiseError>> = Vec::new();
        let mut too_large: Option<u32> = None;
        loop
            invariant_except_break
                too_large is None,
            invariant
                self.tcp_buf.max() == max,
                max == old(self).tcp_buf.max(),
                q0 == old(self).tcp_buf.queued(),
                self.id == old(self).id,
                self.udp_addr == old(self).udp_addr,
                self.udp_buf@ == old(self).udp_buf@,
                ({
                    let d0 = spec_drain(q0, max);
                    let d = spec_drain(self.tcp_buf.queued(), max);
                    &&& d0.outcomes == outcomes_model(packets@) + d.outcomes
                    &&& d0.rest == d.rest
                    &&& d0.too_large == d.too_large
                }),
                self.name@ == name_after(old(self).name@, outcomes_model(packets@)),
                self.joined == joined_after(old(self).joined, outcomes_model(packets@)),
            ensures
                ({
                    let d0 = spec_drain(q0, max);
                    &&& d0.outcomes == outcomes_model(packets@)
                    &&& self.tcp_buf.queued() == d0.rest
                }),
                self.tcp_buf.max() == max,
                self.id == old(self).id,
                self.udp_addr == old(self).udp_addr,
                self.udp_buf@ == old(self).udp_buf@,
                self.name@ == name_after(old(self).name@, outcomes_model(packets@)),
                self.joined == joined_after(old(self).joined, outcomes_model(packets@)),
                too_large is Some ==> spec_drain(q0, max).too_large == Some(too_large->Some_0 as nat),
                too_large is None ==> spec_drain(q0, max).too_large is None,
            decreases self.tcp_buf.queued().len(),
        {
            let ghost q = self.tcp_buf.queued();
            match self.tcp_buf.try_take_frame() {
                Assembled::Frame(f) => {
                    let res = f.decode();
                    match &res {
                        Ok(AnyPacket::Register(p)) => {
                            self.name = p.name.clone();
                        },
                        Ok(AnyPacket::GameJoin(_)) => {
                            self.joined = true;
                        },
                        Err(_) => {},
                    }
                    let ghost before = packets@;
                    packets.push(res);
                    proof {
                        assert(outcomes_model(packets@) =~= outcomes_model(before).push(outcome_model(res)));
                        assert(outcomes_model(packets@).drop_last() =~= outcomes_model(before));
                    }
                },
                Assembled::NeedMoreData => {
                    proof {
                        assert(spec_drain(q, max).outcomes =~= Seq::empty());
                        assert(outcomes_model(packets@) + Seq::empty() =~= outcomes_model(packets@));
                    }
                    break;
                },
                Assembled::TooLarge(n) => {
                    too_large = Some(n);
                    proof {
                        assert(spec_drain(q, max).too_large == Some(n as nat));
                        assert(outcomes_model(packets@) + Seq::empty() =~= outcomes_model(packets@));
                    }
                    break;
                },
            }
        }
        ParseReport { packets, too_large }
    }

    /// Queues bytes that arrived on this client's stream, then handles every
    /// frame that is complete.
    pub fn receive_stream(&mut self, bytes: &[u8]) -> (r: ParseReport)
        ensures
            parsed_from(*old(self), old(self).tcp_buf.queued() + bytes@, *final(self), r),
    {
        self.tcp_buf.feed(bytes);
        self.try_parse_packets()
    }

    /// Queues a datagram's bytes that came from this client's address.
    pub fn receive_datagram(&mut self, bytes: &[u8])
        ensures
            datagram_queued(*old(self), *final(self), bytes@),
    {
        let mut i: usize = 0;
        while i < bytes.len()
            invariant
                0 <= i <= bytes@.len(),
                self.udp_buf@ == old(self).udp_buf@ + bytes@.subrange(0, i as int),
                self.id == old(self).id,
                self.name@ == old(self).name@,
                self.udp_addr == old(self).udp_addr,
                self.tcp_buf.queued() == old(self).tcp_buf.queued(),
                self.tcp_buf.max() == old(self).tcp_buf.max(),
                self.joined == old(self).joined,
            decreases bytes@.len() - i,
        {
            self.udp_buf.push(bytes[i]);
            i = i + 1;
            assert(self.udp_buf@ =~= old(self).udp_buf@ + bytes@.subrange(0, i as int));
        }
        assert(bytes@.subrange(0, i as int) =~= bytes@);
    }
}

} // verus!
