//! The wire format: a frame is a 4-byte little-endian payload length, a
//! 3-byte ASCII tag naming the packet variant, and the payload itself.
use vstd::prelude::*;
use vstd::utf8::*;

verus! {

/// Bytes taken by the length field.
pub const LENGTH_LEN: usize = 4;

/// Bytes taken by the tag.
pub const TAG_LEN: usize = 3;

/// Bytes before the payload: the length field and the tag.
pub const HEADER_LEN: usize = 7;

/// The four little-endian bytes of `n`.
pub open spec fn le_bytes(n: nat) -> Seq<u8> {
    seq![
        (n % 256) as u8,
        ((n / 256) % 256) as u8,
        ((n / 65536) % 256) as u8,
        ((n / 16777216) % 256) as u8,
    ]
}

/// The number whose little-endian bytes are the first four of `b`.
pub open spec fn le_value(b: Seq<u8>) -> nat
    recommends
        b.len() >= 4,
{
    (b[0] + 256 * b[1] + 65536 * b[2] + 16777216 * b[3]) as nat
}

/// Reading back the bytes of a 32-bit number gives the number.
pub proof fn lemma_le_round_trip(n: nat)
    requires
        n <= u32::MAX,
    ensures
        le_bytes(n).len() == 4,
        le_value(le_bytes(n)) == n,
{
    let b = le_bytes(n);
    assert(n == n % 256 + 256 * ((n / 256) % 256) + 65536 * ((n / 65536) % 256) + 16777216 * ((n
        / 16777216) % 256)) by (nonlinear_arith)
        requires
            n <= u32::MAX,
    ;
}

/// The length field for a payload of `n` bytes.
pub fn encode_length(n: u32) -> (r: [u8; 4])
    ensures
        r@ == le_bytes(n as nat),
{
    let r: [u8; 4] = [
        (n % 256) as u8,
        ((n / 256) % 256) as u8,
        ((n / 65536) % 256) as u8,
        ((n / 16777216) % 256) as u8,
    ];
    assert(r@ =~= le_bytes(n as nat));
    r
}

/// The payload length held in the first four bytes of `b`.
pub fn decode_length(b: &[u8]) -> (r: u32)
    requires
        b@.len() >= 4,
    ensures
        r == le_value(b@),
{
    let v: u32 = b[0] as u32 + 256 * (b[1] as u32) + 65536 * (b[2] as u32) + 16777216 * (b[3] as u32);
    v
}

/// Tag of the registration packet.
pub const TAG_REGISTER: [u8; 3] = [114u8, 101u8, 103u8];

/// Tag of the game-join packet.
pub const TAG_GAME_JOIN: [u8; 3] = [103u8, 109u8, 106u8];

/// Why a payload could not be turned into a packet.
#[derive(Debug, Clone, Copy, Hash, PartialEq, Eq, PartialOrd, Structural)]
pub enum DeserialiseError {
    /// The payload fails the variant's own validation (a name that is not
    /// UTF-8).
    DataBad,
    /// No packet variant is registered under the frame's tag.
    UnknownTag,
}

impl DeserialiseError {
    /// A sentence that explains the error.
    pub fn description(&self) -> (r: &'static str)
        ensures
            *self is DataBad ==> r@ == "The data was of bad format, or was\n        incomplete and impossible to parse in some way - i.e. a string was\n        given with a length, but the data was not long enough for the entire\n        string to be contained."@,
            *self is UnknownTag ==> r@ == "no packet variant is registered under the tag"@,
    {
        match self {
            DeserialiseError::DataBad => "The data was of bad format, or was\n        incomplete and impossible to parse in some way - i.e. a string was\n        given with a length, but the data was not long enough for the entire\n        string to be contained.",
            DeserialiseError::UnknownTag => "no packet variant is registered under the tag",
        }
    }
}

/// The complete frame that carries `payload` under `tag`.
pub open spec fn frame_of(tag: Seq<u8>, payload: Seq<u8>) -> Seq<u8> {
    le_bytes(payload.len()) + tag + payload
}

/// The tag bytes of a complete frame.
pub open spec fn tag_of(frame: Seq<u8>) -> Seq<u8> {
    frame.subrange(LENGTH_LEN as int, HEADER_LEN as int)
}

/// The payload bytes of a complete frame.
pub open spec fn payload_of(frame: Seq<u8>) -> Seq<u8> {
    frame.subrange(HEADER_LEN as int, frame.len() as int)
}

/// A packet that travels in a frame under a tag of its own.
pub trait Packet: Sized {
    /// The tag that frames of this packet carry.
    spec fn spec_tag() -> Seq<u8>;

    /// The payload that this packet is written as.
    spec fn spec_payload(&self) -> Seq<u8>;

    /// The complete frame of this packet: length, tag and payload.
    fn serialise(&self) -> (r: Vec<u8>)
        requires
            self.spec_payload().len() <= u32::MAX,
        ensures
            r@ == frame_of(Self::spec_tag(), self.spec_payload()),
    ;

    /// The packet held by a payload, stripped of its length and tag.
    fn deserialise(buf: &[u8]) -> (r: Result<Self, DeserialiseError>);
}

/// Appends the bytes of `b` to `v`.
fn append_bytes(v: &mut Vec<u8>, b: &[u8])
    ensures
        final(v)@ == old(v)@ + b@,
{
    let mut i: usize = 0;
    while i < b.len()
        invariant
            0 <= i <= b@.len(),
            v@ == old(v)@ + b@.subrange(0, i as int),
        decreases b@.len() - i,
    {
        v.push(b[i]);
        i = i + 1;
        assert(v@ =~= old(v)@ + b@.subrange(0, i as int));
    }
    assert(b@.subrange(0, i as int) =~= b@);
}

/// The frame that carries `payload` under `tag`.
fn build_frame(tag: &[u8; 3], payload: &[u8]) -> (r: Vec<u8>)
    requires
        payload@.len() <= u32::MAX,
    ensures
        r@ == frame_of(tag@, payload@),
{
    let mut r: Vec<u8> = Vec::new();
    let len = encode_length(payload.len() as u32);
    append_bytes(&mut r, &len);
    append_bytes(&mut r, tag);
    append_bytes(&mut r, payload);
    assert(r@ =~= frame_of(tag@, payload@));
    r
}

/// Relies on std::str::from_utf8: it fails exactly when the bytes are not
/// UTF-8, and otherwise gives the text that they encode.
#[verifier::external_body]
fn utf8_text(b: &[u8]) -> (r: Option<String>)
    ensures
        r is Some <==> valid_utf8(b@),
        r is Some ==> r->Some_0@ == decode_utf8(b@),
{
    match std::str::from_utf8(b) {
        Ok(s) => Some(s.to_owned()),
        Err(_) => None,
    }
}

/// A request to register under a display name.
pub struct RegPacket {
    pub name: String,
}

impl RegPacket {
    /// A registration under `name`.
    pub fn new(name: &str) -> (r: RegPacket)
        ensures
            r.name@ == name@,
    {
        RegPacket { name: name.to_owned() }
    }
}

impl Packet for RegPacket {
    open spec fn spec_tag() -> Seq<u8> {
        TAG_REGISTER@
    }

    open spec fn spec_payload(&self) -> Seq<u8> {
        encode_utf8(self.name@)
    }

    fn serialise(&self) -> (r: Vec<u8>) {
        build_frame(&TAG_REGISTER, self.name.as_str().as_bytes())
    }

    fn deserialise(buf: &[u8]) -> (r: Result<RegPacket, DeserialiseError>)
        ensures
            r is Ok <==> valid_utf8(buf@),
            r is Ok ==> r->Ok_0.name@ == decode_utf8(buf@),
            r is Err ==> r->Err_0 == DeserialiseError::DataBad,
    {
        match utf8_text(buf) {
            Some(name) => Ok(RegPacket { name }),
            None => Err(DeserialiseError::DataBad),
        }
    }
}

/// A request to join the single running game; it carries no payload.
pub struct GameJoinPacket;

impl Packet for GameJoinPacket {
    open spec fn spec_tag() -> Seq<u8> {
        TAG_GAME_JOIN@
    }

    open spec fn spec_payload(&self) -> Seq<u8> {
        Seq::empty()
    }

    fn serialise(&self) -> (r: Vec<u8>) {
        let empty: [u8; 0] = [];
        build_frame(&TAG_GAME_JOIN, &empty)
    }

    fn deserialise(buf: &[u8]) -> (r: Result<GameJoinPacket, DeserialiseError>)
        ensures
            r is Ok,
    {
        Ok(GameJoinPacket)
    }
}

/// What a packet says, apart from how it is stored.
pub enum PacketModel {
    /// Registration under a display name.
    Register(Seq<char>),
    /// A request to join the game.
    GameJoin,
}

/// The tag under which a packet travels.
pub open spec fn model_tag(p: PacketModel) -> Seq<u8> {
    match p {
        PacketModel::Register(_) => TAG_REGISTER@,
        PacketModel::GameJoin => TAG_GAME_JOIN@,
    }
}

/// The payload that a packet is written as.
pub open spec fn model_payload(p: PacketModel) -> Seq<u8> {
    match p {
        PacketModel::Register(name) => encode_utf8(name),
        PacketModel::GameJoin => Seq::empty(),
    }
}

/// The complete frame of a packet.
pub open spec fn spec_serialise(p: PacketModel) -> Seq<u8> {
    frame_of(model_tag(p), model_payload(p))
}

/// What a payload under a tag decodes to: each registered tag maps to its
/// variant's decoder, any other tag is unknown.
pub open spec fn spec_decode(tag: Seq<u8>, payload: Seq<u8>) -> Result<PacketModel, DeserialiseError> {
    if tag == TAG_REGISTER@ {
        if valid_utf8(payload) {
            Ok(PacketModel::Register(decode_utf8(payload)))
        } else {
            Err(DeserialiseError::DataBad)
        }
    } else if tag == TAG_GAME_JOIN@ {
        Ok(PacketModel::GameJoin)
    } else {
        Err(DeserialiseError::UnknownTag)
    }
}

/// Decoding the tag and payload of a serialised packet gives back the packet.
pub proof fn lemma_round_trip(p: PacketModel)
    requires
        model_payload(p).len() <= u32::MAX,
    ensures
        spec_decode(tag_of(spec_serialise(p)), payload_of(spec_serialise(p))) == Ok::<
            PacketModel,
            DeserialiseError,
        >(p),
{
    broadcast use encode_utf8_decode_utf8, encode_utf8_valid_utf8;

    let payload = model_payload(p);
    let frame = spec_serialise(p);
    lemma_le_round_trip(payload.len());
    assert(tag_of(frame) =~= model_tag(p));
    assert(payload_of(frame) =~= payload);
    assert(TAG_REGISTER@ != TAG_GAME_JOIN@) by {
        assert(TAG_REGISTER@[0] != TAG_GAME_JOIN@[0]);
    }
}

/// A packet of any registered variant.
pub enum AnyPacket {
    Register(RegPacket),
    GameJoin(GameJoinPacket),
}

impl View for AnyPacket {
    type V = PacketModel;

    open spec fn view(&self) -> PacketModel {
        match self {
            AnyPacket::Register(r) => PacketModel::Register(r.name@),
            AnyPacket::GameJoin(_) => PacketModel::GameJoin,
        }
    }
}

/// Whether two tags hold the same bytes.
pub fn same_tag(a: &[u8; 3], b: &[u8; 3]) -> (r: bool)
    ensures
        r == (a@ == b@),
{
    let r = a[0] == b[0] && a[1] == b[1] && a[2] == b[2];
    if r {
        assert(a@ =~= b@);
    }
    r
}

impl AnyPacket {
    /// Decodes a payload by the decoder registered under `tag`.
    pub fn decode(tag: &[u8; 3], payload: &[u8]) -> (r: Result<AnyPacket, DeserialiseError>)
        ensures
            match r {
                Ok(p) => spec_decode(tag@, payload@) == Ok::<PacketModel, DeserialiseError>(p@),
                Err(e) => spec_decode(tag@, payload@) == Err::<PacketModel, DeserialiseError>(e),
            },
    {
        if same_tag(tag, &TAG_REGISTER) {
            match RegPacket::deserialise(payload) {
                Ok(p) => Ok(AnyPacket::Register(p)),
                Err(e) => Err(e),
            }
        } else if same_tag(tag, &TAG_GAME_JOIN) {
            match GameJoinPacket::deserialise(payload) {
                Ok(p) => Ok(AnyPacket::GameJoin(p)),
                Err(e) => Err(e),
            }
        } else {
            Err(DeserialiseError::UnknownTag)
        }
    }

    /// The complete frame of this packet.
    pub fn serialise(&self) -> (r: Vec<u8>)
        requires
            model_payload(self@).len() <= u32::MAX,
        ensures
            r@ == spec_serialise(self@),
    {
        match self {
            AnyPacket::Register(p) => p.serialise(),
            AnyPacket::GameJoin(p) => p.serialise(),
        }
    }
}

} // verus!
