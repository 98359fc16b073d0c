//! Reassembly of frames out of a connection's byte stream, which may arrive
//! split at any point or with several frames in one piece.
use vstd::prelude::*;

use crate::packet::{
    decode_length, frame_of, le_bytes, le_value, lemma_le_round_trip, spec_decode, AnyPacket,
    DeserialiseError, PacketModel, HEADER_LEN, LENGTH_LEN,
};

verus! {

/// The largest payload that an assembler accepts by default.
pub const DEFAULT_MAX_PAYLOAD: u32 = 1048576;

/// One complete frame: its tag and its payload.
pub struct Frame {
    pub tag: [u8; 3],
    pub payload: Vec<u8>,
}

impl Frame {
    /// The packet that this frame carries.
    pub fn decode(&self) -> (r: Result<AnyPacket, DeserialiseError>)
        ensures
            match r {
                Ok(p) => spec_decode(self.tag@, self.payload@) == Ok::<PacketModel, DeserialiseError>(p@),
                Err(e) => spec_decode(self.tag@, self.payload@) == Err::<PacketModel, DeserialiseError>(e),
            },
    {
        AnyPacket::decode(&self.tag, self.payload.as_slice())
    }
}

/// What one attempt to take a frame found, as values.
pub enum TakeModel {
    Frame { tag: Seq<u8>, payload: Seq<u8> },
    NeedMoreData,
    TooLarge(nat),
}

/// What one attempt to take a frame found.
pub enum Assembled {
    /// A complete frame, now removed from the queue.
    Frame(Frame),
    /// The queue holds no complete frame yet; nothing was removed.
    NeedMoreData,
    /// The queued header announces a payload of this many bytes, over the
    /// limit; the connection should be dropped.
    TooLarge(u32),
}

impl View for Assembled {
    type V = TakeModel;

    open spec fn view(&self) -> TakeModel {
        match self {
            Assembled::Frame(f) => TakeModel::Frame { tag: f.tag@, payload: f.payload@ },
            Assembled::NeedMoreData => TakeModel::NeedMoreData,
            Assembled::TooLarge(n) => TakeModel::TooLarge(*n as nat),
        }
    }
}

/// The outcome of taking one frame from the front of queue `q`, where
/// payloads over `max` bytes are refused. The header is only read, never
/// consumed, until the whole frame is there.
pub open spec fn spec_take(q: Seq<u8>, max: nat) -> TakeModel {
    if q.len() < HEADER_LEN {
        TakeModel::NeedMoreData
    } else if le_value(q) > max {
        TakeModel::TooLarge(le_value(q))
    } else if q.len() < HEADER_LEN + le_value(q) {
        TakeModel::NeedMoreData
    } else {
        TakeModel::Frame {
            tag: q.subrange(LENGTH_LEN as int, HEADER_LEN as int),
            payload: q.subrange(HEADER_LEN as int, HEADER_LEN + le_value(q)),
        }
    }
}

/// What stays queued after taking one frame from `q`.
pub open spec fn spec_rest(q: Seq<u8>, max: nat) -> Seq<u8> {
    match spec_take(q, max) {
        TakeModel::Frame { tag, payload } => q.subrange(HEADER_LEN + payload.len(), q.len() as int),
        _ => q,
    }
}

/// The bytes of one connection that are not yet part of a taken frame.
pub struct FrameAssembler {
    buf: Vec<u8>,
    max_payload: u32,
}

impl FrameAssembler {
    /// The bytes queued, oldest first.
    pub closed spec fn queued(&self) -> Seq<u8> {
        self.buf@
    }

    /// The largest payload accepted.
    pub closed spec fn max(&self) -> nat {
        self.max_payload as nat
    }

    /// An empty queue that accepts payloads of up to `max_payload` bytes.
    pub fn new(max_payload: u32) -> (r: FrameAssembler)
        ensures
            r.queued() == Seq::<u8>::empty(),
            r.max() == max_payload,
    {
        FrameAssembler { buf: Vec::new(), max_payload }
    }

    /// The number of bytes queued.
    pub fn len(&self) -> (r: usize)
        ensures
            r == self.queued().len(),
    {
        self.buf.len()
    }

    /// Appends bytes that arrived on the connection.
    pub fn feed(&mut self, bytes: &[u8])
        ensures
            final(self).queued() == old(self).queued() + bytes@,
            final(self).max() == old(self).max(),
    {
        let mut i: usize = 0;
        while i < bytes.len()
            invariant
                0 <= i <= bytes@.len(),
                self.buf@ == old(self).buf@ + bytes@.subrange(0, i as int),
                self.max_payload == old(self).max_payload,
            decreases bytes@.len() - i,
        {
            self.buf.push(bytes[i]);
            i = i + 1;
            assert(self.buf@ =~= old(self).buf@ + bytes@.subrange(0, i as int));
        }
        assert(bytes@.subrange(0, i as int) =~= bytes@);
    }

    /// Takes one complete frame from the front of the queue, if there is one.
    pub fn try_take_frame(&mut self) -> (r: Assembled)
        ensures
            r@ == spec_take(old(self).queued(), old(self).max()),
            final(self).queued() == spec_rest(old(self).queued(), old(self).max()),
            final(self).max() == old(self).max(),
    {
        if self.buf.len() < HEADER_LEN {
            return Assembled::NeedMoreData;
        }
        let n = decode_length(self.buf.as_slice());
        if n > self.max_payload {
            return Assembled::TooLarge(n);
        }
        if self.buf.len() - HEADER_LEN < n as usize {
            return Assembled::NeedMoreData;
        }
        let end: usize = HEADER_LEN + n as usize;
        let tag: [u8; 3] = [self.buf[4], self.buf[5], self.buf[6]];
        let rest = self.buf.split_off(end);
        let payload = self.buf.split_off(HEADER_LEN);
        self.buf = rest;
        proof {
            let q = old(self).buf@;
            assert(tag@ =~= q.subrange(LENGTH_LEN as int, HEADER_LEN as int));
            assert(payload@ =~= q.subrange(HEADER_LEN as int, HEADER_LEN + le_value(q)));
        }
        Assembled::Frame(Frame { tag, payload })
    }
}

/// A complete frame at the front of the queue is taken whole, and whatever
/// followed it stays queued.
pub proof fn lemma_take_whole_frame(tag: Seq<u8>, payload: Seq<u8>, after: Seq<u8>, max: nat)
    requires
        tag.len() == 3,
        payload.len() <= max,
        payload.len() <= u32::MAX,
    ensures
        spec_take(frame_of(tag, payload) + after, max) == (TakeModel::Frame { tag, payload }),
        spec_rest(frame_of(tag, payload) + after, max) == after,
{
    let n = payload.len();
    let q = frame_of(tag, payload) + after;
    lemma_le_round_trip(n);
    assert(q.subrange(0, 4) =~= le_bytes(n));
    assert(le_value(q) == le_value(le_bytes(n)));
    assert(q.subrange(LENGTH_LEN as int, HEADER_LEN as int) =~= tag);
    assert(q.subrange(HEADER_LEN as int, HEADER_LEN + n) =~= payload);
    assert(q.subrange(HEADER_LEN + n, q.len() as int) =~= after);
}

/// A frame delivered in two pieces, split at any offset: after the first
/// piece the assembler waits and keeps every byte; after the second it gives
/// the same frame as the unsplit bytes, and nothing stays queued.
pub proof fn lemma_split_delivery(tag: Seq<u8>, payload: Seq<u8>, max: nat, k: int)
    requires
        tag.len() == 3,
        payload.len() <= max,
        payload.len() <= u32::MAX,
        0 <= k < frame_of(tag, payload).len(),
    ensures
        spec_take(frame_of(tag, payload).take(k), max) == TakeModel::NeedMoreData,
        spec_rest(frame_of(tag, payload).take(k), max) == frame_of(tag, payload).take(k),
        spec_take(frame_of(tag, payload).take(k) + frame_of(tag, payload).skip(k), max)
            == spec_take(frame_of(tag, payload), max),
        spec_take(frame_of(tag, payload), max) == (TakeModel::Frame { tag, payload }),
        spec_rest(frame_of(tag, payload), max) == Seq::<u8>::empty(),
{
    let n = payload.len();
    let f = frame_of(tag, payload);
    let q = f.take(k);
    lemma_le_round_trip(n);
    if k >= HEADER_LEN {
        assert(q.subrange(0, 4) =~= le_bytes(n));
        assert(le_value(q) == le_value(le_bytes(n)));
    }
    assert(q + f.skip(k) =~= f);
    lemma_take_whole_frame(tag, payload, Seq::empty(), max);
    assert(f + Seq::<u8>::empty() =~= f);
}

/// Two frames delivered in one piece are taken one after the other, in the
/// order they were sent, and then the assembler waits for more data.
pub proof fn lemma_two_frames(tag1: Seq<u8>, payload1: Seq<u8>, tag2: Seq<u8>, payload2: Seq<u8>, max: nat)
    requires
        tag1.len() == 3,
        tag2.len() == 3,
        payload1.len() <= max,
        payload2.len() <= max,
        payload1.len() <= u32::MAX,
        payload2.len() <= u32::MAX,
    ensures
        ({
            let q = frame_of(tag1, payload1) + frame_of(tag2, payload2);
            &&& spec_take(q, max) == (TakeModel::Frame { tag: tag1, payload: payload1 })
            &&& spec_rest(q, max) == frame_of(tag2, payload2)
            &&& spec_take(spec_rest(q, max), max) == (TakeModel::Frame { tag: tag2, payload: payload2 })
            &&& spec_rest(spec_rest(q, max), max) == Seq::<u8>::empty()
            &&& spec_take(Seq::<u8>::empty(), max) == TakeModel::NeedMoreData
        }),
{
    lemma_take_whole_frame(tag1, payload1, frame_of(tag2, payload2), max);
    lemma_take_whole_frame(tag2, payload2, Seq::empty(), max);
    assert(frame_of(tag2, payload2) + Seq::<u8>::empty() =~= frame_of(tag2, payload2));
}

} // verus!
