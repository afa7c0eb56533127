//! Message framing on the reliable stream.
//!
//! A stream has no message boundaries, so each message travels as a frame:
//! its length as four little-endian bytes, then the payload. [`Connection`]
//! builds frames for sending and takes a stream apart again, a chunk of any
//! size at a time.
//!
//! Only the reliable channel is here. The protocol also knows unreliable
//! messages, sent as datagrams with a mode byte in front (0 for unreliable,
//! 1 for unreliable sequenced, which a four-byte sequence number follows).
//! They are left out on purpose: a client's connection to this relay
//! carries reliable messages only.

use vstd::prelude::*;
use crate::bridge::Packet;
use crate::wire::{le_u32, lemma_le_u32_prefix, put_u32, u32_from_le, u32_le_bytes};

verus! {

/// Number of bytes of the length prefix.
pub const PREFIX_LEN: usize = 4;

/// The frame that carries `payload`: the payload's length modulo 2^32 as
/// four little-endian bytes, then the payload.
pub open spec fn frame(payload: Seq<u8>) -> Seq<u8> {
    u32_le_bytes((payload.len() % 0x1_0000_0000) as u32) + payload
}

/// The frames of `payloads`, one after the other.
pub open spec fn frames(payloads: Seq<Seq<u8>>) -> Seq<u8>
    decreases payloads.len(),
{
    if payloads.len() == 0 {
        Seq::empty()
    } else {
        frames(payloads.drop_last()) + frame(payloads.last())
    }
}

/// The payloads of `packets`, in order.
pub open spec fn payloads(packets: Seq<Packet>) -> Seq<Seq<u8>> {
    packets.map_values(|p: Packet| p.data@)
}

/// Length of the frame that `stream` starts with, known once the prefix is
/// there.
pub open spec fn frame_len(stream: Seq<u8>) -> int
    recommends
        stream.len() >= PREFIX_LEN,
{
    PREFIX_LEN + le_u32(stream)
}

/// `stream` holds at least one whole frame.
pub open spec fn complete(stream: Seq<u8>) -> bool {
    stream.len() >= PREFIX_LEN && stream.len() >= frame_len(stream)
}

/// What a decoder makes of a chunk of input.
pub struct Progress {
    /// The bytes of the current frame that are held back for the next call.
    pub pending: Seq<u8>,
    /// The message that the chunk completed, if it completed one.
    pub message: Option<Seq<u8>>,
    /// How many bytes of the chunk were taken.
    pub consumed: nat,
}

/// One decoding step: a decoder that holds `pending` is given `input`.
///
/// It takes input up to the end of the current frame and no further. If the
/// frame is then whole, its payload is the message and nothing is held back;
/// otherwise all of the input is taken and held back.
pub open spec fn advance(pending: Seq<u8>, input: Seq<u8>) -> Progress {
    let stream = pending + input;
    if complete(stream) {
        Progress {
            pending: Seq::empty(),
            message: Some(stream.subrange(PREFIX_LEN as int, frame_len(stream))),
            consumed: (frame_len(stream) - pending.len()) as nat,
        }
    } else {
        Progress { pending: stream, message: None, consumed: input.len() }
    }
}

/// Decoding `input` one byte per step, up to the first message.
pub open spec fn advance_bytewise(pending: Seq<u8>, input: Seq<u8>) -> Progress
    decreases input.len(),
{
    if input.len() == 0 {
        Progress { pending, message: None, consumed: 0 }
    } else {
        let first = advance(pending, input.take(1));
        if first.message is Some {
            first
        } else {
            let rest = advance_bytewise(first.pending, input.skip(1));
            Progress { pending: rest.pending, message: rest.message, consumed: rest.consumed + 1 }
        }
    }
}

/// A frame sent and received again gives the payload back and takes exactly
/// the frame's bytes, four more than the payload, whatever follows it on the
/// stream. This holds of every payload whose length the prefix can express.
pub proof fn lemma_frame_round_trip(payload: Seq<u8>, rest: Seq<u8>)
    requires
        payload.len() <= u32::MAX,
    ensures
        frame(payload).len() == payload.len() + PREFIX_LEN,
        advance(Seq::empty(), frame(payload) + rest) == (Progress {
            pending: Seq::empty(),
            message: Some(payload),
            consumed: payload.len() + PREFIX_LEN as nat,
        }),
{
    let n = (payload.len() % 0x1_0000_0000) as u32;
    assert(n == payload.len());
    crate::wire::lemma_le_round_trip(0, n);
    let prefix = u32_le_bytes(n);
    let stream = Seq::<u8>::empty() + (frame(payload) + rest);
    assert(stream.subrange(0, 4) =~= prefix.subrange(0, 4));
    lemma_le_u32_prefix(stream, prefix);
    assert(stream.subrange(PREFIX_LEN as int, frame_len(stream)) =~= payload);
}

/// The decoder does not care where the stream is cut. Given `first` and then
/// `second`, it ends where it would have ended given both at once: if
/// `first` completes the frame, what follows changes nothing; if not, the
/// step on `second` gives the same message and holds back the same bytes,
/// and the two steps together took as many bytes as the single one.
pub proof fn lemma_advance_split(pending: Seq<u8>, first: Seq<u8>, second: Seq<u8>)
    requires
        !complete(pending),
    ensures
        advance(pending, first).message is Some ==> advance(pending, first + second) == advance(
            pending,
            first,
        ),
        advance(pending, first).message is None ==> {
            let step = advance(advance(pending, first).pending, second);
            let whole = advance(pending, first + second);
            &&& step.message == whole.message
            &&& step.pending == whole.pending
            &&& step.consumed + first.len() == whole.consumed
        },
{
    let one = pending + first;
    let both = pending + (first + second);
    assert(both =~= one + second);
    if one.len() >= PREFIX_LEN {
        assert(both.subrange(0, 4) =~= one.subrange(0, 4));
        lemma_le_u32_prefix(both, one);
    }
    if complete(one) {
        assert(both.subrange(PREFIX_LEN as int, frame_len(both)) =~= one.subrange(
            PREFIX_LEN as int,
            frame_len(one),
        ));
    }
}

/// Feeding a stream one byte per call gives the same message, holds back
/// the same bytes and takes as many as feeding it in one call.
pub proof fn lemma_bytewise_same(pending: Seq<u8>, input: Seq<u8>)
    requires
        !complete(pending),
    ensures
        advance_bytewise(pending, input) == advance(pending, input),
    decreases input.len(),
{
    if input.len() == 0 {
        assert(pending + input =~= pending);
    } else {
        let head = input.take(1);
        let tail = input.skip(1);
        assert(head + tail =~= input);
        lemma_advance_split(pending, head, tail);
        let first = advance(pending, head);
        if first.message is None {
            lemma_bytewise_same(first.pending, tail);
        } else {
            let stream = pending + head;
            if pending.len() >= PREFIX_LEN {
                assert(stream.subrange(0, 4) =~= pending.subrange(0, 4));
                lemma_le_u32_prefix(stream, pending);
            }
            assert(first.consumed == 1);
        }
    }
}

/// Where a partly received frame is kept between calls.
struct BufferOffset {
    /// Whether the length prefix is still being received.
    reading_length: bool,
    /// How many bytes of the prefix, or of the body, have arrived.
    offset: usize,
    length: [u8; 4],
    buffer: Vec<u8>,
}

impl BufferOffset {
    spec fn wf(&self) -> bool {
        if self.reading_length {
            self.offset < PREFIX_LEN && self.buffer@.len() == 0
        } else {
            self.buffer@.len() == le_u32(self.length@) && self.offset < self.buffer@.len()
        }
    }

    spec fn pending(&self) -> Seq<u8> {
        if self.reading_length {
            self.length@.subrange(0, self.offset as int)
        } else {
            self.length@ + self.buffer@.subrange(0, self.offset as int)
        }
    }

    /// Between calls the bytes held back never amount to a whole frame.
    proof fn lemma_incomplete(&self)
        requires
            self.wf(),
        ensures
            !complete(self.pending()),
            !self.reading_length ==> le_u32(self.pending()) == le_u32(self.length@),
    {
        if !self.reading_length {
            assert(self.pending().subrange(0, 4) =~= self.length@.subrange(0, 4));
            lemma_le_u32_prefix(self.pending(), self.length@);
        }
    }

    /// The state before the first byte of a frame.
    fn idle() -> (state: BufferOffset)
        ensures
            state.wf(),
            state.pending() == Seq::<u8>::empty(),
    {
        let state = BufferOffset {
            reading_length: true,
            offset: 0,
            length: [0u8; 4],
            buffer: Vec::new(),
        };
        assert(state.pending() =~= Seq::<u8>::empty());
        state
    }

    /// Copies input into the prefix until the prefix is whole or the input
    /// is used up.
    fn fill_length(&mut self, input: &[u8]) -> (used: usize)
        requires
            old(self).reading_length,
            old(self).offset <= PREFIX_LEN,
        ensures
            final(self).reading_length,
            final(self).buffer == old(self).buffer,
            used <= input@.len(),
            final(self).offset == old(self).offset + used,
            final(self).offset <= PREFIX_LEN,
            final(self).offset == PREFIX_LEN || used == input@.len(),
            final(self).length@.subrange(0, final(self).offset as int) == old(
                self,
            ).length@.subrange(0, old(self).offset as int) + input@.take(used as int),
    {
        let mut used: usize = 0;
        let ghost had = self.length@.subrange(0, self.offset as int);
        assert(had + input@.take(0) =~= had);
        while self.offset < PREFIX_LEN && used < input.len()
            invariant
                self.reading_length,
                self.buffer == old(self).buffer,
                self.offset <= PREFIX_LEN,
                used <= input@.len(),
                self.offset == old(self).offset + used,
                self.length@.subrange(0, self.offset as int) == had + input@.take(used as int),
            decreases input@.len() - used,
        {
            let ghost before = self.length@.subrange(0, self.offset as int);
            let byte = input[used];
            self.length[self.offset] = byte;
            proof {
                assert(self.length@.subrange(0, self.offset + 1) =~= before.push(byte));
                assert(input@.take(used + 1) =~= input@.take(used as int).push(byte));
                assert((had + input@.take(used as int)).push(byte) =~= had + input@.take(
                    used as int,
                ).push(byte));
            }
            self.offset += 1;
            used += 1;
        }
        used
    }

    /// Copies input from `from` on into the body until the body is whole or
    /// the input is used up.
    fn fill_buffer(&mut self, input: &[u8], from: usize) -> (used: usize)
        requires
            !old(self).reading_length,
            old(self).offset <= old(self).buffer@.len(),
            from <= input@.len(),
        ensures
            !final(self).reading_length,
            final(self).length == old(self).length,
            final(self).buffer@.len() == old(self).buffer@.len(),
            from <= used <= input@.len(),
            final(self).offset == old(self).offset + (used - from),
            final(self).offset <= final(self).buffer@.len(),
            final(self).offset == final(self).buffer@.len() || used == input@.len(),
            final(self).buffer@.subrange(0, final(self).offset as int) == old(
                self,
            ).buffer@.subrange(0, old(self).offset as int) + input@.subrange(
                from as int,
                used as int,
            ),
    {
        let mut used: usize = from;
        let ghost had = self.buffer@.subrange(0, self.offset as int);
        assert(had + input@.subrange(from as int, from as int) =~= had);
        while self.offset < self.buffer.len() && used < input.len()
            invariant
                !self.reading_length,
                self.length == old(self).length,
                self.buffer@.len() == old(self).buffer@.len(),
                self.offset <= self.buffer@.len(),
                from <= used <= input@.len(),
                self.offset == old(self).offset + (used - from),
                self.buffer@.subrange(0, self.offset as int) == had + input@.subrange(
                    from as int,
                    used as int,
                ),
            decreases input@.len() - used,
        {
            let ghost before = self.buffer@.subrange(0, self.offset as int);
            let byte = input[used];
            self.buffer[self.offset] = byte;
            proof {
                assert(self.buffer@.subrange(0, self.offset + 1) =~= before.push(byte));
                assert(input@.subrange(from as int, used + 1) =~= input@.subrange(
                    from as int,
                    used as int,
                ).push(byte));
                assert((had + input@.subrange(from as int, used as int)).push(byte) =~= had
                    + input@.subrange(from as int, used as int).push(byte));
            }
            self.offset += 1;
            used += 1;
        }
        used
    }

    /// Takes input up to the end of the current frame.
    fn receive(&mut self, input: &[u8]) -> (r: (usize, Option<Vec<u8>>))
        requires
            old(self).wf(),
        ensures
            final(self).wf(),
            final(self).pending() == advance(old(self).pending(), input@).pending,
            r.0 == advance(old(self).pending(), input@).consumed,
            r.0 <= input@.len(),
            match r.1 {
                Some(message) => advance(old(self).pending(), input@).message == Some(message@),
                None => advance(old(self).pending(), input@).message is None,
            },
    {
        let ghost stream = old(self).pending() + input@;
        let mut used: usize = 0;
        if self.reading_length {
            used = self.fill_length(input);
            if self.offset < PREFIX_LEN {
                proof {
                    assert(input@.take(used as int) =~= input@);
                }
                return (used, None);
            }
            proof {
                assert(self.length@.subrange(0, PREFIX_LEN as int) =~= self.length@);
                assert(stream.subrange(0, 4) =~= self.length@.subrange(0, 4));
                lemma_le_u32_prefix(stream, self.length@);
            }
            self.reading_length = false;
            self.offset = 0;
            self.buffer = vec![0u8; u32_from_le(&self.length) as usize];
        } else {
            proof {
                assert(stream.subrange(0, 4) =~= self.length@.subrange(0, 4));
                lemma_le_u32_prefix(stream, self.length@);
            }
        }
        let ghost head = self.length@;
        let ghost start = used;
        let ghost body = self.buffer@.subrange(0, self.offset as int);
        assert(head + body =~= old(self).pending() + input@.take(start as int));
        used = self.fill_buffer(input, used);
        proof {
            let grown = self.buffer@.subrange(0, self.offset as int);
            assert(input@.take(start as int) + input@.subrange(start as int, used as int)
                =~= input@.take(used as int));
            assert(head + grown =~= old(self).pending() + input@.take(used as int));
            assert(head + grown =~= stream.subrange(0, PREFIX_LEN + self.offset));
        }
        if self.offset < self.buffer.len() {
            proof {
                assert(input@.take(used as int) =~= input@);
                assert(stream =~= head + self.buffer@.subrange(0, self.offset as int));
            }
            return (used, None);
        }
        self.reading_length = true;
        self.offset = 0;
        let mut message: Vec<u8> = Vec::new();
        std::mem::swap(&mut self.buffer, &mut message);
        proof {
            assert(message@.subrange(0, message@.len() as int) =~= message@);
            assert(frame_len(stream) == PREFIX_LEN + message@.len());
            assert(head + message@ =~= stream.subrange(0, frame_len(stream)));
            assert forall|i: int| 0 <= i < message@.len() implies stream[PREFIX_LEN + i]
                == message@[i] by {
                assert((head + message@)[PREFIX_LEN + i] == message@[i]);
            }
            assert(stream.subrange(PREFIX_LEN as int, frame_len(stream)) =~= message@);
            assert(self.pending() =~= Seq::<u8>::empty());
        }
        (used, Some(message))
    }
}

/// One end of a framed stream: the transport `T`, which callers read and
/// write, and the state of the frame being received.
pub struct Connection<T> {
    tcp: T,
    packet: BufferOffset,
}

impl<T> Connection<T> {
    #[verifier::type_invariant]
    spec fn inv(&self) -> bool {
        self.packet.wf()
    }

    /// The bytes of the current frame received so far.
    pub closed spec fn pending(&self) -> Seq<u8> {
        self.packet.pending()
    }

    /// The transport that this connection was made from.
    pub closed spec fn transport_view(&self) -> T {
        self.tcp
    }

    /// Wraps an established transport. No byte has been received yet.
    pub fn from(tcp: T) -> (conn: Self)
        ensures
            conn.pending() == Seq::<u8>::empty(),
            conn.transport_view() == tcp,
    {
        Connection { tcp, packet: BufferOffset::idle() }
    }

    /// The transport, for reading what it is bound to.
    pub fn transport(&self) -> (tcp: &T)
        ensures
            *tcp == self.transport_view(),
    {
        &self.tcp
    }

    /// Gives the transport back, dropping whatever was held of a frame.
    pub fn into_transport(self) -> (tcp: T)
        ensures
            tcp == self.transport_view(),
    {
        self.tcp
    }

    /// Frames `data` for the wire: the length prefix, then the payload.
    pub fn send_raw(&self, data: &[u8]) -> (wire: Vec<u8>)
        ensures
            wire@ == frame(data@),
    {
        let mut wire: Vec<u8> = Vec::new();
        let len: u64 = data.len() as u64;
        put_u32(&mut wire, (len % 0x1_0000_0000) as u32);
        wire.extend_from_slice(data);
        assert(wire@ =~= frame(data@));
        wire
    }

    /// Frames the payload of every packet, in order, for the wire.
    pub fn send_packets(&self, datas: &Vec<Packet>) -> (wire: Vec<u8>)
        ensures
            wire@ == frames(payloads(datas@)),
    {
        let mut wire: Vec<u8> = Vec::new();
        let mut i: usize = 0;
        while i < datas.len()
            invariant
                i <= datas.len(),
                wire@ == frames(payloads(datas@.take(i as int))),
            decreases datas.len() - i,
        {
            let mut framed = self.send_raw(datas[i].data.as_slice());
            wire.append(&mut framed);
            proof {
                let done = payloads(datas@.take(i as int));
                let next = payloads(datas@.take(i + 1));
                assert(next.drop_last() =~= done);
                assert(next.last() == datas@[i as int].data@);
            }
            i += 1;
        }
        assert(datas@.take(datas.len() as int) =~= datas@);
        wire
    }

    /// How many bytes the current part of the frame still lacks: of the
    /// prefix while that is incomplete, of the body after. Never zero.
    pub fn wanted(&self) -> (n: usize)
        ensures
            n > 0,
            !complete(self.pending()),
            self.pending().len() < PREFIX_LEN ==> n == PREFIX_LEN - self.pending().len(),
            self.pending().len() >= PREFIX_LEN ==> n == frame_len(self.pending())
                - self.pending().len(),
    {
        proof {
            use_type_invariant(self);
            self.packet.lemma_incomplete();
        }
        if self.packet.reading_length {
            PREFIX_LEN - self.packet.offset
        } else {
            self.packet.buffer.len() - self.packet.offset
        }
    }


    /// Whether part of a frame has arrived and the rest is still due. A
    /// caller that takes a read without bytes for the end of the stream
    /// learns here whether the peer stopped in the middle of a message.
    pub fn mid_message(&self) -> (partial: bool)
        ensures
            partial == (self.pending().len() > 0),
    {
        proof {
            use_type_invariant(self);
        }
        !self.packet.reading_length || self.packet.offset > 0
    }

    /// Takes the next chunk of the stream.
    ///
    /// Returns how many bytes of `input` were taken and, if they completed a
    /// frame, its payload. Input beyond the end of the frame is left for the
    /// next call.
    ///
    /// An empty chunk, as from a read that gave nothing, counts as "no data
    /// yet", not as the end of the stream: it changes nothing and yields no
    /// message, also in the middle of a frame.
    pub fn receive_raw(&mut self, input: &[u8]) -> (r: (usize, Option<Vec<u8>>))
        ensures
            !complete(old(self).pending()),
            final(self).transport_view() == old(self).transport_view(),
            final(self).pending() == advance(old(self).pending(), input@).pending,
            r.0 == advance(old(self).pending(), input@).consumed,
            r.0 <= input@.len(),
            match r.1 {
                Some(message) => advance(old(self).pending(), input@).message == Some(message@),
                None => advance(old(self).pending(), input@).message is None,
            },
    {
        proof {
            use_type_invariant(&*self);
            self.packet.lemma_incomplete();
        }
        let mut packet = BufferOffset::idle();
        std::mem::swap(&mut self.packet, &mut packet);
        let r = packet.receive(input);
        self.packet = packet;
        r
    }
}

} // verus!
