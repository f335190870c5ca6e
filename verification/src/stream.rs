//! Incremental frame reconstruction from a chunked byte stream.
//!
//! A transport may deliver a frame in arbitrary pieces. The reader
//! accumulates whatever arrives; a frame is handed out only once its
//! length prefix and all declared payload bytes are present. What the
//! reader yields depends on the accumulated bytes alone, never on how
//! they were chunked.

use vstd::bytes::*;
use vstd::prelude::*;
use vstd::slice::{slice_subrange, slice_to_vec};

use crate::api::{EnvelopeV, MessageEnvelope};
use crate::codec::{enc_env, spec_deserialize, spec_serializable, spec_serialize};
use crate::error::MsgSystemError;

verus! {

/// The largest chunk a single transport read should request while a
/// frame body is being accumulated.
pub const CHUNK_SIZE: usize = 4096;

/// How many payload bytes a reader should ask the transport for next,
/// given how many are still missing: never more than one bounded
/// chunk.
pub fn next_read_len(remaining: usize) -> (n: usize)
    ensures
        n == if remaining < CHUNK_SIZE {
            remaining as int
        } else {
            CHUNK_SIZE as int
        },
{
    if remaining < CHUNK_SIZE {
        remaining
    } else {
        CHUNK_SIZE
    }
}

/// How a stream that reported end-of-stream is to be treated.
#[derive(Debug, PartialEq, Eq, Structural, Clone, Copy)]
pub enum StreamEnd {
    /// No partial frame was pending: a normal lifecycle event.
    Graceful,
    /// The peer closed while a frame was only partially received: a
    /// protocol violation.
    AbruptInterruption,
}

/// The frame at the front of a buffer, if it is complete: the payload
/// and the bytes that remain after it.
pub open spec fn spec_take_frame(b: Seq<u8>) -> Option<(Seq<u8>, Seq<u8>)> {
    if b.len() >= 4 {
        let n = spec_u32_from_le_bytes(b.subrange(0, 4)) as int;
        if b.len() >= 4 + n {
            Some((b.subrange(4, 4 + n), b.skip(4 + n)))
        } else {
            None
        }
    } else {
        None
    }
}

/// Reassembles length-prefixed frames out of a stream of byte chunks.
pub struct StreamReader {
    buffer: Vec<u8>,
}

impl View for StreamReader {
    type V = Seq<u8>;

    closed spec fn view(&self) -> Seq<u8> {
        self.buffer@
    }
}

impl StreamReader {
    /// A reader with nothing pending.
    pub fn new() -> (r: Self)
        ensures
            r@ == Seq::<u8>::empty(),
    {
        StreamReader { buffer: Vec::new() }
    }

    /// Takes one delivery from the transport, of any size, and appends
    /// it to what is pending.
    pub fn push_chunk(&mut self, chunk: &[u8])
        ensures
            final(self)@ == old(self)@ + chunk@,
    {
        self.buffer.extend_from_slice(chunk);
    }

    /// How many bytes are pending, prefix included.
    pub fn pending_len(&self) -> (n: usize)
        ensures
            n == self@.len(),
    {
        self.buffer.len()
    }

    /// Classifies an end of stream: graceful exactly when no partial
    /// frame is pending, an abrupt interruption otherwise.
    pub fn stream_end_kind(&self) -> (r: StreamEnd)
        ensures
            r == (if self@.len() == 0 {
                StreamEnd::Graceful
            } else {
                StreamEnd::AbruptInterruption
            }),
    {
        if self.buffer.len() == 0 {
            StreamEnd::Graceful
        } else {
            StreamEnd::AbruptInterruption
        }
    }

    /// Removes the frame at the front of the buffer and returns its
    /// payload, once prefix and payload have fully arrived; leaves the
    /// buffer untouched while they have not.
    pub fn try_take_frame(&mut self) -> (r: Option<Vec<u8>>)
        ensures
            match r {
                Some(payload) => spec_take_frame(old(self)@) == Some((payload@, final(self)@)),
                None => spec_take_frame(old(self)@) is None && final(self)@ == old(self)@,
            },
    {
        if self.buffer.len() < 4 {
            return None;
        }
        let prefix = slice_subrange(self.buffer.as_slice(), 0, 4);
        let n = u32_from_le_bytes(prefix) as usize;
        if self.buffer.len() - 4 < n {
            return None;
        }
        let payload = slice_to_vec(slice_subrange(self.buffer.as_slice(), 4, 4 + n));
        let rest = slice_to_vec(
            slice_subrange(self.buffer.as_slice(), 4 + n, self.buffer.len()),
        );
        self.buffer = rest;
        Some(payload)
    }

    /// Takes the frame at the front, if complete, and decodes it.
    /// `Ok(None)` while more bytes are needed; an error exactly when a
    /// complete frame's payload is not a valid encoding, a protocol
    /// violation.
    pub fn try_take_envelope(&mut self) -> (r: Result<Option<MessageEnvelope>, MsgSystemError>)
        ensures
            match r {
                Ok(Some(env)) => {
                    &&& spec_take_frame(old(self)@) matches Some((p, rest))
                        && spec_deserialize(p) == Some(env@) && final(self)@ == rest
                },
                Ok(None) => spec_take_frame(old(self)@) is None && final(self)@ == old(self)@,
                Err(e) => {
                    &&& spec_take_frame(old(self)@) matches Some((p, rest))
                        && spec_deserialize(p) is None && final(self)@ == rest
                    &&& e@ is DeserializationFailed
                },
            },
    {
        match self.try_take_frame() {
            Some(payload) => match MessageEnvelope::deserialize(payload.as_slice()) {
                Ok(env) => Ok(Some(env)),
                Err(e) => Err(e),
            },
            None => Ok(None),
        }
    }
}

/// Chunking is immaterial: delivering `c1` then `c2` leaves the very
/// buffer that delivering them as one chunk leaves, whatever was
/// pending before. With `push_chunk` and `try_take_frame`, whose
/// results depend only on the buffer, frames extracted after split
/// deliveries equal those extracted after one delivery.
pub proof fn lemma_chunked_delivery(pending: Seq<u8>, c1: Seq<u8>, c2: Seq<u8>)
    ensures
        (pending + c1) + c2 == pending + (c1 + c2),
{
    assert((pending + c1) + c2 =~= pending + (c1 + c2));
}

/// Any cut of a frame into two pieces delivers the same bytes: the
/// two parts of an encoded frame reassemble to it exactly.
pub proof fn lemma_split_delivery(frame: Seq<u8>, k: int)
    requires
        0 <= k <= frame.len(),
    ensures
        frame.subrange(0, k) + frame.subrange(k, frame.len() as int) == frame,
{
    assert(frame.subrange(0, k) + frame.subrange(k, frame.len() as int) =~= frame);
}

/// A fully delivered encoded frame is taken from the buffer as its
/// payload, leaving exactly the bytes that followed it.
pub proof fn lemma_take_encoded_frame(e: EnvelopeV, rest: Seq<u8>)
    requires
        spec_serializable(e),
    ensures
        spec_take_frame(spec_serialize(e) + rest) == Some((enc_env(e), rest)),
{
    lemma_auto_spec_u32_to_from_le_bytes();
    let b = spec_serialize(e) + rest;
    let n = enc_env(e).len();
    assert(spec_u32_to_le_bytes(n as u32).len() == 4 && spec_u32_from_le_bytes(
        spec_u32_to_le_bytes(n as u32),
    ) == n as u32);
    assert(b.subrange(0, 4) =~= spec_u32_to_le_bytes(n as u32));
    assert(b.subrange(4, 4 + n as int) =~= enc_env(e));
    assert(b.skip(4 + n as int) =~= rest);
}

} // verus!
