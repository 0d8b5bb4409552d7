//! The wire format: messages, each ended by a zero byte.

use vstd::prelude::*;

verus! {

/// Hard cap on the bytes of a single reply.
///
/// Replies are tiny JSON envelopes. A runaway server, or a torn connection that
/// never sends the terminator, must not exhaust memory while the terminator is
/// looked for byte by byte.
pub const MAX_REPLY_BYTES: usize = 1048576;

/// No byte of a message is zero, so that the terminator is told from it.
pub open spec fn no_zero(bytes: Seq<u8>) -> bool {
    forall|i: int| 0 <= i < bytes.len() ==> bytes[i] != 0
}

/// A message as it goes over the wire.
pub open spec fn framed(message: Seq<u8>) -> Seq<u8> {
    message.push(0)
}

/// Ends a message with its terminator.
pub fn frame(message: Vec<u8>) -> (r: Vec<u8>)
    ensures
        r@ == framed(message@),
        r@ == message@ + seq![0u8],
{
    let mut framed = message;
    framed.push(0);
    framed
}

/// Where the reading of a reply stands.
pub enum Reading {
    /// These bytes of the message have come.
    Open(Seq<u8>),
    /// The message is complete.
    Complete(Seq<u8>),
    /// As many bytes came as a reply may have, and no terminator.
    TooLong,
    /// The stream ended before the terminator.
    Closed,
}

/// Where one read leaves a reply of which `bytes` have come. The read gives the
/// next byte, or nothing at the end of the stream.
pub open spec fn after_read(bytes: Seq<u8>, read: Option<u8>) -> Reading {
    if bytes.len() >= MAX_REPLY_BYTES {
        Reading::TooLong
    } else {
        match read {
            None => Reading::Closed,
            Some(byte) => if byte == 0 {
                Reading::Complete(bytes)
            } else if bytes.len() + 1 >= MAX_REPLY_BYTES {
                Reading::TooLong
            } else {
                Reading::Open(bytes.push(byte))
            },
        }
    }
}

/// The bytes that are kept after one read: a byte of the message is added, a
/// terminator is not.
pub open spec fn kept(bytes: Seq<u8>, read: Option<u8>) -> Seq<u8> {
    match read {
        Some(byte) => if byte != 0 && bytes.len() < MAX_REPLY_BYTES {
            bytes.push(byte)
        } else {
            bytes
        },
        None => bytes,
    }
}

/// Where reading `stream` byte by byte, and then its end, leaves a reply of which
/// `bytes` have come.
pub open spec fn after_stream(bytes: Seq<u8>, stream: Seq<u8>) -> Reading
    decreases stream.len(),
{
    if stream.len() == 0 {
        after_read(bytes, None)
    } else {
        match after_read(bytes, Some(stream[0])) {
            Reading::Open(more) => after_stream(more, stream.drop_first()),
            end => end,
        }
    }
}

/// What one read came to.
#[derive(Debug, Clone, Copy, PartialEq, Eq, Structural)]
pub enum Progress {
    /// The next byte is wanted.
    More,
    /// The message is complete.
    Complete,
    /// The cap is reached without a terminator.
    TooLong,
    /// The stream ended early.
    Closed,
}

/// The buffer in which a reply is gathered; it is kept from reply to reply.
pub struct ReplyBuffer {
    bytes: Vec<u8>,
}

impl View for ReplyBuffer {
    type V = Seq<u8>;

    closed spec fn view(&self) -> Seq<u8> {
        self.bytes@
    }
}

impl ReplyBuffer {
    #[verifier::type_invariant]
    spec fn bounded(self) -> bool {
        self.bytes@.len() <= MAX_REPLY_BYTES
    }

    /// An empty buffer.
    pub fn new() -> (r: ReplyBuffer)
        ensures
            r@ == Seq::<u8>::empty(),
    {
        ReplyBuffer { bytes: Vec::with_capacity(4096) }
    }

    /// Forgets what is gathered, for the next reply.
    pub fn clear(&mut self)
        ensures
            final(self)@ == Seq::<u8>::empty(),
    {
        let mut bytes: Vec<u8> = Vec::new();
        std::mem::swap(&mut bytes, &mut self.bytes);
        bytes.clear();
        self.bytes = bytes;
    }

    /// Takes in what one read gave: a byte, or nothing at the end of the stream.
    pub fn feed(&mut self, read: Option<u8>) -> (r: Progress)
        ensures
            final(self)@ == kept(old(self)@, read),
            final(self)@.len() <= MAX_REPLY_BYTES,
            match after_read(old(self)@, read) {
                Reading::Open(more) => r == Progress::More && final(self)@ == more,
                Reading::Complete(message) => r == Progress::Complete && final(self)@ == message,
                Reading::TooLong => r == Progress::TooLong,
                Reading::Closed => r == Progress::Closed,
            },
            old(self)@.len() >= 1048576 ==> r == Progress::TooLong && final(self)@ == old(self)@,
            old(self)@.len() < 1048576 ==> match read {
                None => r == Progress::Closed && final(self)@ == old(self)@,
                Some(byte) => if byte == 0 {
                    r == Progress::Complete && final(self)@ == old(self)@
                } else {
                    &&& final(self)@ == old(self)@ + seq![byte]
                    &&& r == Progress::More <==> old(self)@.len() + 1 < 1048576
                    &&& r == Progress::TooLong <==> old(self)@.len() + 1 == 1048576
                },
            },
    {
        proof {
            use_type_invariant(&*self);
        }
        if self.bytes.len() >= MAX_REPLY_BYTES {
            return Progress::TooLong;
        }
        match read {
            None => Progress::Closed,
            Some(byte) => {
                if byte == 0 {
                    return Progress::Complete;
                }
                let mut bytes: Vec<u8> = Vec::new();
                std::mem::swap(&mut bytes, &mut self.bytes);
                bytes.push(byte);
                self.bytes = bytes;
                if self.bytes.len() >= MAX_REPLY_BYTES {
                    Progress::TooLong
                } else {
                    Progress::More
                }
            },
        }
    }

    /// The bytes gathered so far.
    pub fn as_slice(&self) -> (r: &[u8])
        ensures
            r@ == self@,
            r@.len() <= MAX_REPLY_BYTES,
    {
        proof {
            use_type_invariant(self);
        }
        self.bytes.as_slice()
    }
}

/// A message of fewer bytes than the cap, none of them zero, is read back from the
/// wire as it was framed, and nothing after its terminator is looked at.
pub proof fn law_framed_message_is_read_back(message: Seq<u8>, rest: Seq<u8>)
    requires
        no_zero(message),
        message.len() < MAX_REPLY_BYTES,
    ensures
        after_stream(Seq::empty(), framed(message) + rest) == Reading::Complete(message),
{
    lemma_stream_from(message, rest, 0);
    assert(message.take(0) =~= Seq::<u8>::empty());
    assert((framed(message) + rest).skip(0) =~= framed(message) + rest);
}

proof fn lemma_stream_from(message: Seq<u8>, rest: Seq<u8>, at: int)
    requires
        no_zero(message),
        message.len() < MAX_REPLY_BYTES,
        0 <= at <= message.len(),
    ensures
        after_stream(message.take(at), (framed(message) + rest).skip(at)) == Reading::Complete(
            message,
        ),
    decreases message.len() - at,
{
    let stream = (framed(message) + rest).skip(at);
    if at == message.len() {
        assert(stream[0] == 0);
        assert(message.take(at) =~= message);
    } else {
        assert(stream[0] == message[at]);
        assert(message.take(at).push(message[at]) =~= message.take(at + 1));
        assert(stream.drop_first() =~= (framed(message) + rest).skip(at + 1));
        lemma_stream_from(message, rest, at + 1);
    }
}

/// A stream whose first bytes, as many as the cap, hold no terminator is given up
/// on, whatever follows them.
pub proof fn law_reply_without_terminator_is_too_long(stream: Seq<u8>)
    requires
        stream.len() >= MAX_REPLY_BYTES,
        no_zero(stream.take(MAX_REPLY_BYTES as int)),
    ensures
        after_stream(Seq::empty(), stream) == Reading::TooLong,
{
    let start = stream.take(MAX_REPLY_BYTES as int);
    assert forall|i: int| 0 <= i < stream.len() && i < MAX_REPLY_BYTES implies stream[i]
        != 0 by {
        assert(start[i] == stream[i]);
    }
    lemma_unterminated(stream, 0);
    assert(stream.take(0) =~= Seq::<u8>::empty());
    assert(stream.skip(0) =~= stream);
}

/// A stream that ends before the cap without a terminator gives no reply.
pub proof fn law_reply_cut_short_is_closed(stream: Seq<u8>)
    requires
        stream.len() < MAX_REPLY_BYTES,
        no_zero(stream),
    ensures
        after_stream(Seq::empty(), stream) == Reading::Closed,
{
    lemma_unterminated(stream, 0);
    assert(stream.take(0) =~= Seq::<u8>::empty());
    assert(stream.skip(0) =~= stream);
}

proof fn lemma_unterminated(stream: Seq<u8>, at: int)
    requires
        0 <= at <= stream.len(),
        at < MAX_REPLY_BYTES,
        forall|i: int| 0 <= i < stream.len() && i < MAX_REPLY_BYTES ==> stream[i] != 0,
    ensures
        after_stream(stream.take(at), stream.skip(at)) == if stream.len() >= MAX_REPLY_BYTES {
            Reading::TooLong
        } else {
            Reading::Closed
        },
    decreases stream.len() - at,
{
    if at < stream.len() {
        assert(stream.skip(at)[0] == stream[at]);
        assert(stream.take(at).push(stream[at]) =~= stream.take(at + 1));
        assert(stream.skip(at).drop_first() =~= stream.skip(at + 1));
        if at + 1 < MAX_REPLY_BYTES {
            lemma_unterminated(stream, at + 1);
        }
    }
}

/// A message is told from its terminator exactly where none of its bytes is zero, and on
/// the wire it is followed by one zero byte.
pub proof fn law_messages_on_the_wire(message: Seq<u8>)
    ensures
        no_zero(message) <==> (forall|i: int| 0 <= i < message.len() ==> message[i] != 0),
        framed(message) == message + seq![0u8],
        MAX_REPLY_BYTES == 1048576,
{
    assert(framed(message) =~= message + seq![0u8]);
}

/// What one read comes to, by the bytes that have come and the byte that was read: a zero
/// byte completes the reply with those bytes, another byte is added to them, and the cap
/// ends the reply as soon as that many bytes have come.
pub proof fn law_one_read(bytes: Seq<u8>, byte: u8)
    ensures
        bytes.len() < 1048576 ==> after_read(bytes, None) == Reading::Closed,
        bytes.len() < 1048576 ==> after_read(bytes, Some(0u8)) == Reading::Complete(bytes),
        byte != 0 && bytes.len() + 1 < 1048576 ==> after_read(bytes, Some(byte)) == Reading::Open(
            bytes + seq![byte],
        ),
        byte != 0 && bytes.len() + 1 >= 1048576 ==> after_read(bytes, Some(byte))
            == Reading::TooLong,
        bytes.len() >= 1048576 ==> after_read(bytes, Some(byte)) == Reading::TooLong && after_read(
            bytes,
            None,
        ) == Reading::TooLong,
        kept(bytes, None) == bytes,
        kept(bytes, Some(0u8)) == bytes,
        byte != 0 && bytes.len() < 1048576 ==> kept(bytes, Some(byte)) == bytes + seq![byte],
        bytes.len() >= 1048576 ==> kept(bytes, Some(byte)) == bytes,
{
    assert(bytes.push(byte) =~= bytes + seq![byte]);
}

/// A stream is read byte by byte until a read ends the reply, and then no further; where
/// no byte is left, the end of the stream is read.
pub proof fn law_stream_is_read_byte_by_byte(bytes: Seq<u8>, byte: u8, rest: Seq<u8>)
    ensures
        after_stream(bytes, Seq::empty()) == after_read(bytes, None),
        match after_read(bytes, Some(byte)) {
            Reading::Open(more) => after_stream(bytes, seq![byte] + rest) == after_stream(
                more,
                rest,
            ),
            end => after_stream(bytes, seq![byte] + rest) == end,
        },
{
    assert((seq![byte] + rest).drop_first() =~= rest);
}

/// Whatever a server sends comes to the bytes in front of the first zero byte, where there
/// is one and fewer bytes than the cap stand in front of it.
pub proof fn law_reply_ends_at_the_first_zero(stream: Seq<u8>, end: int)
    requires
        0 <= end < stream.len(),
        end < 1048576,
        stream[end] == 0,
        forall|i: int| 0 <= i < end ==> stream[i] != 0,
    ensures
        after_stream(Seq::empty(), stream) == Reading::Complete(stream.take(end)),
{
    let message = stream.take(end);
    let rest = stream.skip(end + 1);
    assert(framed(message) + rest =~= stream);
    law_framed_message_is_read_back(message, rest);
}

} // verus!
