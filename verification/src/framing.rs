//! Message boundaries on a byte stream: each message travels behind a
//! four-byte length, least significant byte first.

use crate::error::TransportError;
use vstd::prelude::*;
use vstd::slice::{slice_subrange, slice_to_vec};

verus! {

/// The number of bytes of the length that precedes each message.
pub const PREFIX_LENGTH: usize = 4;

/// The longest message a frame can carry.
pub const MAX_MESSAGE_LENGTH: usize = 0xffff_ffff;

/// The four bytes that stand for `length`, least significant first.
pub open spec fn length_prefix(length: nat) -> Seq<u8> {
    seq![
        (length % 256) as u8,
        (length / 256 % 256) as u8,
        (length / 65536 % 256) as u8,
        (length / 16777216 % 256) as u8,
    ]
}

/// A message on the stream: its length, then its bytes.
pub open spec fn frame(message: Seq<u8>) -> Seq<u8> {
    length_prefix(message.len()) + message
}

/// The length that the first four bytes of `buffer` announce.
pub open spec fn announced_length(buffer: Seq<u8>) -> nat {
    (buffer[0] + 256 * buffer[1] + 65536 * buffer[2] + 16777216 * buffer[3]) as nat
}

/// Whether `buffer` holds at least one complete message.
pub open spec fn holds_message(buffer: Seq<u8>) -> bool {
    buffer.len() >= PREFIX_LENGTH && buffer.len() - PREFIX_LENGTH >= announced_length(buffer)
}

/// The first complete message in `buffer`.
pub open spec fn first_message(buffer: Seq<u8>) -> Seq<u8> {
    buffer.subrange(PREFIX_LENGTH as int, PREFIX_LENGTH + announced_length(buffer))
}

/// What stays in `buffer` behind its first complete message.
pub open spec fn behind_first_message(buffer: Seq<u8>) -> Seq<u8> {
    buffer.skip(PREFIX_LENGTH + announced_length(buffer))
}

/// A frame announces the length of the message it carries.
pub proof fn lemma_frame_announces_length(message: Seq<u8>, rest: Seq<u8>)
    requires
        message.len() <= MAX_MESSAGE_LENGTH,
    ensures
        announced_length(frame(message) + rest) == message.len(),
{
    let buffer = frame(message) + rest;
    let length = message.len();
    assert(buffer[0] == (length % 256) as u8);
    assert(buffer[1] == (length / 256 % 256) as u8);
    assert(buffer[2] == (length / 65536 % 256) as u8);
    assert(buffer[3] == (length / 16777216 % 256) as u8);
}

/// Framing keeps message boundaries: whatever follows a frame on the stream,
/// the message is taken out whole and exactly what follows stays behind.
pub proof fn lemma_frame_round_trip(message: Seq<u8>, rest: Seq<u8>)
    requires
        message.len() <= MAX_MESSAGE_LENGTH,
    ensures
        holds_message(frame(message) + rest),
        first_message(frame(message) + rest) == message,
        behind_first_message(frame(message) + rest) == rest,
{
    let buffer = frame(message) + rest;
    lemma_frame_announces_length(message, rest);
    assert(first_message(buffer) =~= message);
    assert(behind_first_message(buffer) =~= rest);
}

/// A frame that has not arrived in full yields no message yet.
pub proof fn lemma_partial_frame_holds_no_message(message: Seq<u8>, arrived: int)
    requires
        message.len() <= MAX_MESSAGE_LENGTH,
        0 <= arrived < frame(message).len(),
    ensures
        !holds_message(frame(message).take(arrived)),
{
    let partial = frame(message).take(arrived);
    if arrived >= PREFIX_LENGTH {
        lemma_frame_announces_length(message, Seq::empty());
        assert(frame(message) + Seq::<u8>::empty() =~= frame(message));
        assert(partial[0] == frame(message)[0]);
        assert(partial[1] == frame(message)[1]);
        assert(partial[2] == frame(message)[2]);
        assert(partial[3] == frame(message)[3]);
    }
}

/// Puts `message` in a frame. Fails, with `DataTooLarge`, exactly for a
/// message longer than a frame can carry.
pub fn encode_frame(message: &[u8]) -> (r: Result<Vec<u8>, TransportError>)
    ensures
        match r {
            Ok(framed) => message@.len() <= MAX_MESSAGE_LENGTH && framed@ == frame(message@),
            Err(e) => message@.len() > MAX_MESSAGE_LENGTH && e == TransportError::DataTooLarge,
        },
{
    if message.len() > MAX_MESSAGE_LENGTH {
        return Err(TransportError::DataTooLarge);
    }
    let length: usize = message.len();
    let mut framed: Vec<u8> = Vec::new();
    framed.push((length % 256) as u8);
    framed.push((length / 256 % 256) as u8);
    framed.push((length / 65536 % 256) as u8);
    framed.push((length / 16777216 % 256) as u8);
    assert(framed@ =~= length_prefix(length as nat));
    let ghost prefix = framed@;
    framed.extend_from_slice(message);
    assert(framed@ =~= prefix + message@);
    Ok(framed)
}

/// The bytes that have arrived on a stream and were not yet handed out as
/// messages.
pub struct FrameBuffer {
    bytes: Vec<u8>,
}

impl View for FrameBuffer {
    type V = Seq<u8>;

    closed spec fn view(&self) -> Seq<u8> {
        self.bytes@
    }
}

impl FrameBuffer {
    /// A buffer into which nothing has arrived.
    pub fn new() -> (buffer: FrameBuffer)
        ensures
            buffer@ == Seq::<u8>::empty(),
    {
        FrameBuffer { bytes: Vec::new() }
    }

    /// The number of bytes waiting in the buffer.
    pub fn len(&self) -> (len: usize)
        ensures
            len == self@.len(),
    {
        self.bytes.len()
    }

    /// Takes in what one read from the stream delivered. A read that
    /// delivers nothing means that the peer closed the stream: the buffer is
    /// left as it is and `RemoteStreamClosed` is reported.
    pub fn receive(&mut self, chunk: &[u8]) -> (r: Result<(), TransportError>)
        ensures
            match r {
                Ok(_) => chunk@.len() > 0 && final(self)@ == old(self)@ + chunk@,
                Err(e) => {
                    &&& chunk@.len() == 0
                    &&& e == TransportError::RemoteStreamClosed
                    &&& final(self)@ == old(self)@
                },
            },
    {
        if chunk.len() == 0 {
            return Err(TransportError::RemoteStreamClosed);
        }
        let ghost before = self.bytes@;
        self.bytes.extend_from_slice(chunk);
        assert(self.bytes@ =~= before + chunk@);
        Ok(())
    }

    /// Hands out the first message once it has arrived in full, and keeps
    /// what follows it. Until then nothing is handed out and the buffer is
    /// left as it is.
    pub fn take_message(&mut self) -> (message: Option<Vec<u8>>)
        ensures
            match message {
                Some(taken) => {
                    &&& holds_message(old(self)@)
                    &&& taken@ == first_message(old(self)@)
                    &&& final(self)@ == behind_first_message(old(self)@)
                },
                None => !holds_message(old(self)@) && final(self)@ == old(self)@,
            },
    {
        if self.bytes.len() < PREFIX_LENGTH {
            return None;
        }
        let announced: u64 = self.bytes[0] as u64 + 256 * (self.bytes[1] as u64) + 65536 * (
        self.bytes[2] as u64) + 16777216 * (self.bytes[3] as u64);
        if ((self.bytes.len() - PREFIX_LENGTH) as u64) < announced {
            return None;
        }
        let end: usize = PREFIX_LENGTH + announced as usize;
        let taken = slice_to_vec(slice_subrange(self.bytes.as_slice(), PREFIX_LENGTH, end));
        let rest = slice_to_vec(slice_subrange(self.bytes.as_slice(), end, self.bytes.len()));
        assert(rest@ =~= behind_first_message(self.bytes@));
        self.bytes = rest;
        Some(taken)
    }
}

} // verus!
